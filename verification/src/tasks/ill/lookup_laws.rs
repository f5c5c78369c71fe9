//! What lookups on the Japanese Wikipedia and on Wikidata find.

use vstd::prelude::*;

use super::jawiki::StateView;
use super::{jawiki, wikidata};
use crate::json::Json;
use crate::text;

verus! {

/// Whether the item at `k` leads from one title to another.
pub open spec fn leads(items: Seq<Json>, k: int, from: Seq<char>, to: Seq<char>) -> bool {
    &&& 0 <= k < items.len()
    &&& items[k].member("from"@).text() == Some(from)
    &&& items[k].member("to"@).text() == Some(to)
}

/// Whether a list leads from one title to another: an item of it does, and no
/// later one leads from the same title elsewhere.
pub open spec fn leads_to(items: Seq<Json>, from: Seq<char>, to: Seq<char>) -> bool {
    exists|k: int| #[trigger]
        leads(items, k, from, to) && forall|j: int, other: Seq<char>|
            k < j && #[trigger] leads(items, j, from, other) ==> other == to
}

/// Whether a list leads nowhere from a title.
pub open spec fn leads_nowhere(items: Seq<Json>, from: Seq<char>) -> bool {
    forall|k: int, to: Seq<char>| !#[trigger] leads(items, k, from, to)
}

proof fn lemma_table(items: Seq<Json>, from: Seq<char>)
    ensures
        jawiki::table_of(items).contains_key(from) ==> leads_to(
            items,
            from,
            jawiki::table_of(items)[from],
        ),
        !jawiki::table_of(items).contains_key(from) ==> leads_nowhere(items, from),
    decreases items.len(),
{
    if items.len() > 0 {
        let rest = items.drop_last();
        let n = items.len() - 1;
        let table = jawiki::table_of(items);
        lemma_table(rest, from);
        if items.last().member("from"@).text() == Some(from) && items.last().member(
            "to"@,
        ).text() is Some {
            assert(leads(items, n, from, table[from]));
        } else {
            if table.contains_key(from) {
                let to = table[from];
                let k = choose|k: int| #[trigger]
                    leads(rest, k, from, to) && forall|j: int, other: Seq<char>|
                        k < j && #[trigger] leads(rest, j, from, other) ==> other == to;
                assert(leads(items, k, from, to));
                assert forall|j: int, other: Seq<char>|
                    k < j && #[trigger] leads(items, j, from, other) implies other == to by {
                    assert(leads(rest, j, from, other));
                }
            } else {
                assert forall|k: int, to: Seq<char>| !#[trigger] leads(items, k, from, to) by {
                    if leads(items, k, from, to) {
                        assert(leads(rest, k, from, to));
                    }
                }
            }
        }
    }
}

/// A list of `{from, to}` objects is read as what it leads to: the table holds a
/// title exactly where the list leads from it, and then what it leads to.
pub proof fn tables_hold_where_lists_lead(items: Seq<Json>, from: Seq<char>, to: Seq<char>)
    ensures
        leads_to(items, from, to) == (jawiki::table_of(items).contains_key(from)
            && jawiki::table_of(items)[from] == to),
        leads_nowhere(items, from) == !jawiki::table_of(items).contains_key(from),
{
    let table = jawiki::table_of(items);
    lemma_table(items, from);
    if leads_to(items, from, to) {
        let k = choose|k: int| #[trigger]
            leads(items, k, from, to) && forall|j: int, other: Seq<char>|
                k < j && #[trigger] leads(items, j, from, other) ==> other == to;
        assert(!leads_nowhere(items, from));
        let there = table[from];
        let m = choose|m: int| #[trigger]
            leads(items, m, from, there) && forall|j: int, other: Seq<char>|
                m < j && #[trigger] leads(items, j, from, other) ==> other == there;
        if m < k {
            assert(leads(items, k, from, to));
        }
    }
    if table.contains_key(from) {
        let there = table[from];
        let m = choose|m: int| #[trigger]
            leads(items, m, from, there) && forall|j: int, other: Seq<char>|
                m < j && #[trigger] leads(items, j, from, other) ==> other == there;
        assert(leads(items, m, from, there));
    }
}

/// Whether the pages of a response name a title as missing.
pub open spec fn is_missing_in(resp: Json, title: Seq<char>) -> bool {
    exists|i: int|
        0 <= i < resp.member("query"@).member("pages"@).elements().len() && (
        #[trigger] resp.member("query"@).member("pages"@).elements()[i]).member("missing"@)
            == Json::Bool(true) && resp.member("query"@).member("pages"@).elements()[i].member(
            "title"@,
        ).text() == Some(title)
}

/// The list of a response that normalises titles.
pub open spec fn normalizing(resp: Json) -> Seq<Json> {
    resp.member("query"@).member("normalized"@).elements()
}

/// The list of a response that redirects titles.
pub open spec fn redirecting(resp: Json) -> Seq<Json> {
    resp.member("query"@).member("redirects"@).elements()
}

/// Whether a response asks to look at `there` for a title: at its normalised
/// form where it is normalised, else at the title itself.
pub open spec fn stands_for(resp: Json, title: Seq<char>, there: Seq<char>) -> bool {
    leads_to(normalizing(resp), title, there) || (leads_nowhere(normalizing(resp), title) && there
        == title)
}

/// A title that is not redirected is missing where the pages name it, or what it
/// is normalised to, as missing, and exists otherwise.
pub proof fn titles_without_redirect(resp: Json, title: Seq<char>, there: Seq<char>)
    requires
        stands_for(resp, title, there),
        leads_nowhere(redirecting(resp), there),
    ensures
        jawiki::state_in(resp, title) == (if is_missing_in(resp, there) {
            StateView::Missing
        } else {
            StateView::Exists
        }),
{
    tables_hold_where_lists_lead(normalizing(resp), title, there);
    tables_hold_where_lists_lead(redirecting(resp), there, there);
    lemma_missing(resp, there);
}

proof fn lemma_missing(resp: Json, title: Seq<char>)
    ensures
        is_missing_in(resp, title) == jawiki::is_named_missing(
            resp.member("query"@).member("pages"@).elements(),
            title,
        ),
{
}

/// A title that is redirected, or whose normalised form is, is a redirect to the
/// end of the chain, followed for at most five hops. Whether the page at the end
/// is missing plays no part.
pub proof fn redirected_titles(resp: Json, title: Seq<char>, chain: Seq<Seq<char>>)
    requires
        2 <= chain.len() <= 6,
        stands_for(resp, title, chain[0]),
        forall|i: int|
            0 <= i < chain.len() - 1 ==> leads_to(
                redirecting(resp),
                #[trigger] chain[i],
                chain[i + 1],
            ),
        chain.len() == 6 || leads_nowhere(redirecting(resp), chain.last()),
    ensures
        jawiki::state_in(resp, title) == StateView::Redirect(chain.last()),
{
    let redirects = jawiki::table_of(redirecting(resp));
    tables_hold_where_lists_lead(normalizing(resp), title, chain[0]);
    assert forall|i: int| 0 <= i < chain.len() - 1 implies redirects.contains_key(
        #[trigger] chain[i],
    ) && redirects[chain[i]] == chain[i + 1] by {
        tables_hold_where_lists_lead(redirecting(resp), chain[i], chain[i + 1]);
    }
    tables_hold_where_lists_lead(redirecting(resp), chain.last(), chain.last());
    lemma_followed(redirects, chain, 0, 5);
    assert(redirects.contains_key(chain[0]));
}

proof fn lemma_followed(
    redirects: Map<Seq<char>, Seq<char>>,
    chain: Seq<Seq<char>>,
    from: int,
    hops: nat,
)
    requires
        0 <= from < chain.len(),
        chain.len() - 1 - from <= hops,
        chain.len() - 1 - from == hops || !redirects.contains_key(chain.last()),
        forall|i: int|
            0 <= i < chain.len() - 1 ==> redirects.contains_key(#[trigger] chain[i])
                && redirects[chain[i]] == chain[i + 1],
    ensures
        jawiki::followed(redirects, chain[from], hops) == chain.last(),
    decreases hops,
{
    if from < chain.len() - 1 {
        assert(redirects.contains_key(chain[from]));
        lemma_followed(redirects, chain, from + 1, (hops - 1) as nat);
    }
}

/// A title has the state of what it is normalised to.
pub proof fn normalized_titles_have_the_same_state(
    resp: Json,
    title: Seq<char>,
    there: Seq<char>,
)
    requires
        leads_to(normalizing(resp), title, there),
        leads_nowhere(normalizing(resp), there),
    ensures
        jawiki::state_in(resp, title) == jawiki::state_in(resp, there),
{
    tables_hold_where_lists_lead(normalizing(resp), title, there);
    tables_hold_where_lists_lead(normalizing(resp), there, there);
}

/// Every title asked for has its state, under the name by which it was asked
/// for, and no other title has one.
pub proof fn states_are_keyed_by_the_titles_asked_for(
    resp: Json,
    titles: Seq<Seq<char>>,
    title: Seq<char>,
)
    ensures
        jawiki::states_in(resp, titles).contains_key(title) == titles.contains(title),
        titles.contains(title) ==> jawiki::states_in(resp, titles)[title] == jawiki::state_in(
            resp,
            title,
        ),
{
}

/// Whether a language code has a database name of its own making.
pub open spec fn is_exceptional(code: Seq<char>) -> bool {
    ||| code == "be-tarask"@
    ||| code == "gsw"@
    ||| code == "lzh"@
    ||| code == "nan"@
    ||| code == "nb"@
    ||| code == "rup"@
    ||| code == "sgs"@
    ||| code == "vro"@
    ||| code == "yue"@
}

/// The database name of a language code is the code with underscores for hyphens
/// and `wiki` behind it.
pub proof fn sites_of_ordinary_codes(code: Seq<char>)
    requires
        forall|i: int| 0 <= i < code.len() ==> !('A' <= #[trigger] code[i] && code[i] <= 'Z'),
        code.len() > 0 ==> !text::is_white_space(code[0]) && !text::is_white_space(code.last()),
        !is_exceptional(code),
    ensures
        ({
            let site = wikidata::site_of(code);
            &&& site.len() == code.len() + 4
            &&& forall|i: int|
                0 <= i < code.len() ==> #[trigger] site[i] == (if code[i] == '-' {
                    '_'
                } else {
                    code[i]
                })
            &&& site.skip(code.len() as int) == seq!['w', 'i', 'k', 'i']
        }),
{
    reveal_strlit("wiki");
    assert("wiki"@ =~= seq!['w', 'i', 'k', 'i']);
    text::nothing_to_trim(code);
    assert(text::lower(code) =~= code);
    let site = wikidata::site_of(code);
    assert(site == text::replace_char(code, '-', '_') + seq!['w', 'i', 'k', 'i']);
    assert(site.skip(code.len() as int) =~= seq!['w', 'i', 'k', 'i']);
}

proof fn lemma_small_code(code: Seq<char>)
    requires
        forall|i: int|
            0 <= i < code.len() ==> ('a' <= #[trigger] code[i] && code[i] <= 'z') || code[i] == '-',
    ensures
        text::lower(text::trimmed(code)) == code,
{
    text::nothing_to_trim(code);
    assert(text::lower(code) =~= code);
}

/// The language codes whose database name does not follow the rule.
pub proof fn sites_of_exceptional_codes()
    ensures
        wikidata::site_of("be-tarask"@) == "be_x_oldwiki"@,
        wikidata::site_of("gsw"@) == "alswiki"@,
        wikidata::site_of("lzh"@) == "zh_classicalwiki"@,
        wikidata::site_of("nan"@) == "zh_min_nanwiki"@,
        wikidata::site_of("nb"@) == "nowiki"@,
        wikidata::site_of("rup"@) == "roa_rupwiki"@,
        wikidata::site_of("sgs"@) == "bat_smgwiki"@,
        wikidata::site_of("vro"@) == "fiu_vrowiki"@,
        wikidata::site_of("yue"@) == "zh_yuewiki"@,
{
    reveal_strlit("be-tarask");
    reveal_strlit("gsw");
    reveal_strlit("lzh");
    reveal_strlit("nan");
    reveal_strlit("nb");
    reveal_strlit("rup");
    reveal_strlit("sgs");
    reveal_strlit("vro");
    reveal_strlit("yue");
    assert("be-tarask"@.len() == 9 && "nb"@.len() == 2);
    assert("gsw"@.len() == 3 && "lzh"@.len() == 3 && "nan"@.len() == 3 && "rup"@.len() == 3
        && "sgs"@.len() == 3 && "vro"@.len() == 3 && "yue"@.len() == 3);
    assert("gsw"@[0] == 'g' && "lzh"@[0] == 'l' && "nan"@[0] == 'n' && "rup"@[0] == 'r'
        && "sgs"@[0] == 's' && "vro"@[0] == 'v' && "yue"@[0] == 'y');
    lemma_small_code("be-tarask"@);
    lemma_small_code("gsw"@);
    lemma_small_code("lzh"@);
    lemma_small_code("nan"@);
    lemma_small_code("nb"@);
    lemma_small_code("rup"@);
    lemma_small_code("sgs"@);
    lemma_small_code("vro"@);
    lemma_small_code("yue"@);
}

/// White space around a language code and the case of its letters make no
/// difference to its site.
pub proof fn codes_are_read_loosely(
    before: Seq<char>,
    written: Seq<char>,
    after: Seq<char>,
    code: Seq<char>,
)
    requires
        forall|i: int| 0 <= i < before.len() ==> text::is_white_space(#[trigger] before[i]),
        forall|i: int| 0 <= i < after.len() ==> text::is_white_space(#[trigger] after[i]),
        written.len() > 0 ==> !text::is_white_space(written[0]) && !text::is_white_space(
            written.last(),
        ),
        written.len() == code.len(),
        forall|i: int|
            0 <= i < code.len() ==> crate::text_laws::alike(#[trigger] written[i], code[i]),
    ensures
        wikidata::site_of(before + written + after) == wikidata::site_of(code),
{
    crate::text_laws::trimming_takes_outer_white_space(before, written, after);
    crate::text_laws::same_text_up_to_case(written, code);
    if code.len() > 0 {
        let n = code.len() - 1;
        assert(crate::text_laws::alike(written[0], code[0]));
        assert(crate::text_laws::alike(written[n], code[n]));
    }
    text::nothing_to_trim(code);
}

/// The title that an entity has on a site.
pub open spec fn title_on_site(entity: Json, site: Seq<char>) -> Option<Seq<char>> {
    entity.member("sitelinks"@).member(site).member("title"@).text()
}

/// Whether the entity at `i` links a title on a site to a Japanese one.
pub open spec fn links(
    entities: Seq<(String, Json)>,
    i: int,
    site: Seq<char>,
    source: Seq<char>,
    ja: Seq<char>,
) -> bool {
    &&& 0 <= i < entities.len()
    &&& title_on_site(entities[i].1, site) == Some(source)
    &&& title_on_site(entities[i].1, "jawiki"@) == Some(ja)
}

proof fn lemma_titles_by_title(entities: Seq<(String, Json)>, site: Seq<char>, key: Seq<char>)
    ensures
        ({
            let found = wikidata::ja_titles_by_title(entities, site);
            if found.contains_key(key) {
                exists|i: int, source: Seq<char>| #[trigger]
                    links(entities, i, site, source, found[key]) && wikidata::normalized(source)
                        == key && forall|j: int, other: Seq<char>, ja: Seq<char>|
                        i < j && #[trigger] links(entities, j, site, other, ja)
                            ==> wikidata::normalized(other) != key
            } else {
                forall|i: int, source: Seq<char>, ja: Seq<char>| #[trigger]
                    links(entities, i, site, source, ja) ==> wikidata::normalized(source) != key
            }
        }),
    decreases entities.len(),
{
    if entities.len() > 0 {
        let rest = entities.drop_last();
        let n = entities.len() - 1;
        let found = wikidata::ja_titles_by_title(entities, site);
        lemma_titles_by_title(rest, site, key);
        let last = (
            title_on_site(entities[n].1, site),
            title_on_site(entities[n].1, "jawiki"@),
        );
        if last.0 is Some && last.1 is Some && wikidata::normalized(last.0->0) == key {
            assert(links(entities, n, site, last.0->0, found[key]));
        } else if found.contains_key(key) {
            let ja = found[key];
            let (i, source) = choose|i: int, source: Seq<char>| #[trigger]
                links(rest, i, site, source, ja) && wikidata::normalized(source) == key
                    && forall|j: int, other: Seq<char>, there: Seq<char>|
                    i < j && #[trigger] links(rest, j, site, other, there)
                        ==> wikidata::normalized(other) != key;
            assert(links(entities, i, site, source, ja));
            assert forall|j: int, other: Seq<char>, there: Seq<char>|
                i < j && #[trigger] links(
                    entities,
                    j,
                    site,
                    other,
                    there,
                ) implies wikidata::normalized(other) != key by {
                if j < n {
                    assert(links(rest, j, site, other, there));
                }
            }
        } else {
            assert forall|i: int, source: Seq<char>, ja: Seq<char>| #[trigger]
                links(entities, i, site, source, ja) implies wikidata::normalized(source) != key by {
                if i < n {
                    assert(links(rest, i, site, source, ja));
                }
            }
        }
    }
}

/// Every entity with a title on the site and a Japanese one is found under its
/// normalised title on the site, whatever the two titles are, unless a later
/// entity has the same.
pub proof fn every_linked_title_is_found(
    entities: Seq<(String, Json)>,
    site: Seq<char>,
    i: int,
    source: Seq<char>,
    ja: Seq<char>,
)
    requires
        links(entities, i, site, source, ja),
        forall|j: int, other: Seq<char>, there: Seq<char>|
            i < j && #[trigger] links(entities, j, site, other, there) ==> wikidata::normalized(
                other,
            ) != wikidata::normalized(source),
    ensures
        wikidata::ja_titles_by_title(entities, site).contains_key(wikidata::normalized(source)),
        wikidata::ja_titles_by_title(entities, site)[wikidata::normalized(source)] == ja,
{
    let key = wikidata::normalized(source);
    let found = wikidata::ja_titles_by_title(entities, site);
    lemma_titles_by_title(entities, site, key);
    assert(found.contains_key(key));
    let (m, other) = choose|m: int, other: Seq<char>| #[trigger]
        links(entities, m, site, other, found[key]) && wikidata::normalized(other) == key
            && forall|j: int, more: Seq<char>, there: Seq<char>|
            m < j && #[trigger] links(entities, j, site, more, there) ==> wikidata::normalized(more)
                != key;
    if m < i {
        assert(links(entities, i, site, source, ja));
    }
}

/// Whatever is found under a title stems from an entity with that title on the
/// site and with the Japanese title found.
pub proof fn found_titles_are_linked(entities: Seq<(String, Json)>, site: Seq<char>, key: Seq<char>)
    requires
        wikidata::ja_titles_by_title(entities, site).contains_key(key),
    ensures
        exists|i: int, source: Seq<char>| #[trigger]
            links(
                entities,
                i,
                site,
                source,
                wikidata::ja_titles_by_title(entities, site)[key],
            ) && wikidata::normalized(source) == key,
{
    lemma_titles_by_title(entities, site, key);
}

/// The code points of an id in upper case.
pub open spec fn is_id(written: Seq<char>, key: Seq<char>) -> bool {
    &&& written.len() == key.len()
    &&& forall|k: int|
        0 <= k < key.len() ==> #[trigger] key[k] as u32 == (if 'a' <= written[k] && written[k]
            <= 'z' {
            written[k] as u32 - 32
        } else {
            written[k] as u32 as int
        })
}

proof fn lemma_same_code(a: char, b: char)
    requires
        a as u32 == b as u32,
    ensures
        a == b,
{
}

proof fn lemma_id(written: Seq<char>, key: Seq<char>)
    ensures
        is_id(written, key) == (text::upper(written) == key),
{
    if is_id(written, key) {
        assert forall|k: int| 0 <= k < key.len() implies text::upper(written)[k] == key[k] by {
            crate::text_laws::case_of_a_character(written[k]);
            let upper = text::upper_char(written[k]);
            assert(text::upper(written)[k] == upper);
            assert(key[k] as u32 == upper as u32);
            lemma_same_code(key[k], upper);
        }
        assert(text::upper(written) =~= key);
    } else if text::upper(written) == key {
        assert forall|k: int| 0 <= k < key.len() implies #[trigger] key[k] as u32 == (if 'a'
            <= written[k] && written[k] <= 'z' {
            written[k] as u32 - 32
        } else {
            written[k] as u32 as int
        }) by {
            crate::text_laws::case_of_a_character(written[k]);
        }
    }
}

/// The Japanese titles of items are found under their ids in upper case: that of
/// the last entity with the id and a Japanese title. Without one nothing is
/// found.
pub proof fn titles_are_found_by_id(entities: Seq<(String, Json)>, key: Seq<char>)
    ensures
        ({
            let found = wikidata::ja_titles_by_id(entities);
            if found.contains_key(key) {
                exists|i: int|
                    0 <= i < entities.len() && is_id((#[trigger] entities[i]).0@, key)
                        && title_on_site(entities[i].1, "jawiki"@) == Some(found[key])
                        && forall|j: int|
                        i < j < entities.len() && is_id((#[trigger] entities[j]).0@, key)
                            ==> title_on_site(entities[j].1, "jawiki"@) is None
            } else {
                forall|i: int|
                    0 <= i < entities.len() && is_id((#[trigger] entities[i]).0@, key)
                        ==> title_on_site(entities[i].1, "jawiki"@) is None
            }
        }),
    decreases entities.len(),
{
    if entities.len() > 0 {
        let rest = entities.drop_last();
        let n = entities.len() - 1;
        let found = wikidata::ja_titles_by_id(entities);
        titles_are_found_by_id(rest, key);
        lemma_id(entities[n].0@, key);
        assert(forall|i: int| 0 <= i < n ==> #[trigger] rest[i] == entities[i]);
        if is_id(entities[n].0@, key) && title_on_site(entities[n].1, "jawiki"@) is Some {
            assert(title_on_site(entities[n].1, "jawiki"@) == Some(found[key]));
        } else if found.contains_key(key) {
            let i = choose|i: int|
                0 <= i < rest.len() && is_id((#[trigger] rest[i]).0@, key) && title_on_site(
                    rest[i].1,
                    "jawiki"@,
                ) == Some(found[key]) && forall|j: int|
                    i < j < rest.len() && is_id((#[trigger] rest[j]).0@, key) ==> title_on_site(
                        rest[j].1,
                        "jawiki"@,
                    ) is None;
            assert(entities[i] == rest[i]);
            assert forall|j: int|
                i < j < entities.len() && is_id((#[trigger] entities[j]).0@, key) implies title_on_site(
                entities[j].1,
                "jawiki"@,
            ) is None by {
                if j < n {
                    assert(rest[j] == entities[j]);
                }
            }
        } else {
            assert forall|i: int|
                0 <= i < entities.len() && is_id((#[trigger] entities[i]).0@, key) implies title_on_site(
                entities[i].1,
                "jawiki"@,
            ) is None by {
                if i < n {
                    assert(rest[i] == entities[i]);
                }
            }
        }
    }
}

/// A normalised title is the title with single spaces between its words, and
/// with its first letter in upper case: no other character changes.
pub proof fn normalizing_changes_the_first_letter_only(title: Seq<char>, i: int)
    ensures
        wikidata::normalized(title).len() == text::squeezed(title).len(),
        0 < i < text::squeezed(title).len() ==> wikidata::normalized(title)[i] == text::squeezed(
            title,
        )[i],
        text::squeezed(title).len() > 0 ==> wikidata::normalized(title)[0]
            == crate::letters::raised_char(text::squeezed(title)[0]),
{
}

/// The site list is read from the first parameter called `sites`.
pub proof fn the_sites_parameter_is_the_first(params: Seq<Json>)
    ensures
        match wikidata::sites_parameter(params) {
            Some(found) => exists|i: int|
                0 <= i < params.len() && #[trigger] params[i] == found && found.member(
                    "name"@,
                ).text() == Some("sites"@) && forall|j: int|
                    0 <= j < i ==> (#[trigger] params[j]).member("name"@).text() != Some("sites"@),
            None => forall|i: int|
                0 <= i < params.len() ==> (#[trigger] params[i]).member("name"@).text() != Some(
                    "sites"@,
                ),
        },
    decreases params.len(),
{
    if params.len() > 0 {
        if params[0].member("name"@).text() != Some("sites"@) {
            let rest = params.skip(1);
            the_sites_parameter_is_the_first(rest);
            match wikidata::sites_parameter(params) {
                Some(found) => {
                    let i = choose|i: int|
                        0 <= i < rest.len() && #[trigger] rest[i] == found && found.member(
                            "name"@,
                        ).text() == Some("sites"@) && forall|j: int|
                            0 <= j < i ==> (#[trigger] rest[j]).member("name"@).text() != Some(
                                "sites"@,
                            );
                    assert(params[i + 1] == found);
                    assert forall|j: int| 0 <= j < i + 1 implies (#[trigger] params[j]).member(
                        "name"@,
                    ).text() != Some("sites"@) by {
                        if j > 0 {
                            assert(rest[j - 1] == params[j]);
                        }
                    }
                },
                None => {
                    assert forall|i: int| 0 <= i < params.len() implies (
                    #[trigger] params[i]).member("name"@).text() != Some("sites"@) by {
                        if i > 0 {
                            assert(rest[i - 1] == params[i]);
                        }
                    }
                },
            }
        } else {
            assert(params[0] == params[0]);
        }
    }
}

} // verus!
