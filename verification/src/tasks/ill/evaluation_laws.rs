//! What a scan makes of the articles, calls and counterparts it reads.

use vstd::prelude::*;

use crate::api_laws;
use crate::json::Json;
use crate::tasks::ill::jawiki::StateView;
use crate::tasks::ill::parse::{CallView, TargetView};
use crate::tasks::ill::report::FindingView;
use crate::tasks::ill::scan;
use crate::tasks::ill::scan::PendingView;
use crate::text_laws;

verus! {

/// A scan is limited by a number where one is given readably, and else not at
/// all.
pub proof fn the_limit_of_a_scan(text: Seq<char>)
    ensures
        scan::limit_of(None) == usize::MAX,
        match crate::number::parsed(text, usize::MAX as nat) {
            Some(n) => scan::limit_of(Some(text)) == n,
            None => scan::limit_of(Some(text)) == usize::MAX,
        },
{
}

/// How much a scan takes at a time.
pub proof fn limits_of_a_scan()
    ensures
        scan::HIGH_INFO_BATCH == 500,
        scan::LOW_INFO_BATCH == 50,
        scan::SCAN_CHUNK == 500,
        crate::tasks::ill::wikidata::BATCH == 50,
        crate::tasks::ill::report::REPORT_LIMIT == 1000,
        crate::tasks::ill::report::RAW_LIMIT == 200,
{
}

/// Filtering takes a list element by element.
proof fn lemma_one_by_one<A, B>(s: Seq<A>, x: A, f: spec_fn(A) -> Option<B>)
    ensures
        Seq::<A>::empty().filter_map(f).len() == 0,
        s.push(x).filter_map(f) == (match f(x) {
            Some(v) => s.filter_map(f).push(v),
            None => s.filter_map(f),
        }),
{
    let none = Seq::<A>::empty();
    api_laws::filter_map_goes_on(s, seq![x], f);
    api_laws::filter_map_of_one(x, f);
    assert(s + seq![x] =~= s.push(x));
    api_laws::filter_map_goes_on(none, none, f);
    assert(none + none =~= none);
    assert((none.filter_map(f) + none.filter_map(f)).len() == none.filter_map(f).len()
        + none.filter_map(f).len());
    let before = s.filter_map(f);
    match f(x) {
        Some(v) => {
            assert(before + seq![v] =~= before.push(v));
        },
        None => {
            assert(before + Seq::<B>::empty() =~= before);
        },
    }
}

/// Articles come one by one from the items that have a page and a title.
pub proof fn articles_come_one_by_one(items: Seq<Json>, item: Json)
    ensures
        scan::articles_of(seq![]).len() == 0,
        scan::articles_of(items.push(item)) == (match (
            item.member("pageid"@).unsigned(),
            item.member("title"@).text(),
        ) {
            (Some(pageid), Some(title)) => scan::articles_of(items).push((pageid, title)),
            _ => scan::articles_of(items),
        }),
{
    lemma_one_by_one(items, item, |item: Json| scan::article_of(item));
}

/// A page adds the calls in its wikitext, in their order, under its title. One
/// without a title adds none.
pub proof fn pages_add_their_calls(pages: Seq<Json>, page: Json, i: int)
    ensures
        ({
            let before = scan::calls_of(pages);
            let now = scan::calls_of(pages.push(page));
            let calls = crate::tasks::ill::parse::calls_in(crate::api::content_of(page));
            &&& scan::calls_of(seq![]).len() == 0
            &&& now.len() == before.len() + if page.member("title"@).text() is Some {
                calls.len()
            } else {
                0
            }
            &&& 0 <= i < before.len() ==> now[i] == before[i]
            &&& 0 <= i && before.len() + i < now.len() ==> now[before.len() + i] == (
                page.member("title"@).text()->0,
                calls[i],
            )
        }),
{
    assert(pages.push(page).drop_last() =~= pages);
}

/// The titles that calls ask for are their own, call by call.
pub proof fn calls_ask_for_their_titles(calls: Seq<(Seq<char>, CallView)>, i: int)
    requires
        0 <= i < calls.len(),
    ensures
        scan::ja_titles(calls).len() == calls.len(),
        scan::ja_titles(calls)[i] == calls[i].1.ja_title,
{
}

/// The title of a call is looked up where it is not known and no earlier call has
/// it, in the order of the calls.
pub proof fn titles_are_wanted_one_by_one(
    calls: Seq<(Seq<char>, CallView)>,
    article: Seq<char>,
    call: CallView,
    ja: Map<Seq<char>, StateView>,
)
    ensures
        scan::titles_wanted(seq![], ja).len() == 0,
        scan::titles_wanted(calls.push((article, call)), ja) == if ja.contains_key(call.ja_title)
            || exists|i: int|
            0 <= i < calls.len() && (#[trigger] calls[i]).1.ja_title == call.ja_title {
            scan::titles_wanted(calls, ja)
        } else {
            scan::titles_wanted(calls, ja).push(call.ja_title)
        },
{
    reveal(Seq::filter);
    let titles = scan::ja_titles(calls);
    let now = scan::ja_titles(calls.push((article, call)));
    let before = crate::titles::unique_of(titles);
    assert(now =~= titles.push(call.ja_title));
    assert(now.drop_last() =~= titles);
    if titles.contains(call.ja_title) {
        let i = choose|i: int| 0 <= i < titles.len() && titles[i] == call.ja_title;
        assert(calls[i].1.ja_title == call.ja_title);
    } else {
        assert forall|i: int| 0 <= i < calls.len() implies (#[trigger] calls[i]).1.ja_title
            != call.ja_title by {
            assert(titles[i] == calls[i].1.ja_title);
        }
        assert(before.push(call.ja_title).drop_last() =~= before);
    }
    assert(scan::ja_titles(seq![]) =~= seq![]);
}

/// Calls wait where their title is known to lead nowhere or to a redirect, each
/// with that state. All others are done with.
pub proof fn calls_wait_one_by_one(
    calls: Seq<(Seq<char>, CallView)>,
    article: Seq<char>,
    call: CallView,
    ja: Map<Seq<char>, StateView>,
)
    ensures
        scan::pending_of(seq![], ja).len() == 0,
        scan::pending_of(calls.push((article, call)), ja) == if ja.contains_key(call.ja_title)
            && ja[call.ja_title] != StateView::Exists {
            scan::pending_of(calls, ja).push(
                PendingView { article, call, state: ja[call.ja_title] },
            )
        } else {
            scan::pending_of(calls, ja)
        },
{
    lemma_one_by_one(
        calls,
        (article, call),
        |found: (Seq<char>, CallView)| scan::pending_call(found, ja),
    );
}

/// Whether a language stands for Wikidata, in any case.
pub open spec fn means_wikidata(lang: Seq<char>) -> bool {
    let name = seq!['w', 'i', 'k', 'i', 'd', 'a', 't', 'a'];
    lang.len() == 8 && forall|k: int| 0 <= k < 8 ==> text_laws::alike(#[trigger] name[k], lang[k])
}

/// A target is on Wikidata itself where its language says so, else on the site of
/// its language where there is one, and else nowhere.
pub proof fn targets_are_on_a_site(sites: Set<Seq<char>>, lang: Seq<char>)
    ensures
        ({
            let site = crate::tasks::ill::wikidata::site_of(lang);
            &&& means_wikidata(lang) ==> scan::target_site(sites, lang) == Some("wikidata"@)
            &&& !means_wikidata(lang) && sites.contains(site) ==> scan::target_site(sites, lang)
                == Some(site)
            &&& !means_wikidata(lang) && !sites.contains(site) ==> scan::target_site(
                sites,
                lang,
            ) is None
        }),
{
    let name = seq!['w', 'i', 'k', 'i', 'd', 'a', 't', 'a'];
    reveal_strlit("wikidata");
    assert("wikidata"@ =~= name);
    text_laws::same_text_up_to_case(lang, name);
    if means_wikidata(lang) {
        assert forall|k: int| 0 <= k < 8 implies text_laws::alike(#[trigger] lang[k], name[k]) by {
            assert(text_laws::alike(name[k], lang[k]));
        }
    }
    if crate::text::same_ignoring_case(lang, name) {
        assert forall|k: int| 0 <= k < 8 implies text_laws::alike(#[trigger] name[k], lang[k]) by {
            assert(text_laws::alike(lang[k], name[k]));
        }
    }
}

/// A target is looked up by its site and its title as the wiki writes it.
pub proof fn targets_are_looked_up_by_site_and_title(sites: Set<Seq<char>>, target: TargetView)
    ensures
        scan::target_key(sites, target) == (match scan::target_site(sites, target.lang) {
            Some(site) => Some((site, crate::tasks::ill::wikidata::normalized(target.title))),
            None => None,
        }),
{
}

/// The targets of waiting calls come call by call.
pub proof fn targets_come_call_by_call(pending: Seq<PendingView>, call: PendingView)
    ensures
        scan::all_targets(seq![]).len() == 0,
        scan::all_targets(pending.push(call)) == scan::all_targets(pending) + call.call.targets,
{
    assert(pending.push(call).drop_last() =~= pending);
}

/// Of the targets, those on a site that have not been looked up are wanted, one
/// by one.
pub proof fn targets_are_wanted_one_by_one(
    targets: Seq<TargetView>,
    target: TargetView,
    sites: Set<Seq<char>>,
    links: Map<(Seq<char>, Seq<char>), Option<Seq<char>>>,
)
    ensures
        ({
            let before = scan::wanted_of(targets, sites, links);
            let now = scan::wanted_of(targets.push(target), sites, links);
            let key = scan::target_key(sites, target);
            &&& scan::wanted_of(seq![], sites, links).len() == 0
            &&& key is Some && !links.contains_key(key->0) ==> now == before.push(key->0)
            &&& key is None || links.contains_key(key->0) ==> now == before
        }),
{
    lemma_one_by_one(
        targets,
        target,
        |target: TargetView| scan::wanted_key(target, sites, links),
    );
}

/// Languages without a site are told, one by one.
pub proof fn unknown_languages_are_told(
    targets: Seq<TargetView>,
    target: TargetView,
    sites: Set<Seq<char>>,
)
    ensures
        scan::unknown_of(seq![], sites).len() == 0,
        scan::unknown_of(targets.push(target), sites) == if scan::target_site(
            sites,
            target.lang,
        ) is None {
            scan::unknown_of(targets, sites).push(target.lang)
        } else {
            scan::unknown_of(targets, sites)
        },
{
    lemma_one_by_one(targets, target, |target: TargetView| scan::unknown_lang(target, sites));
}

/// Each site that is asked for has one group, in the order in which the sites come
/// up, with the titles asked for on it.
pub proof fn groups_hold_the_titles_of_a_site(keys: Seq<(Seq<char>, Seq<char>)>, i: int)
    requires
        0 <= i < scan::groups_of(keys).len(),
    ensures
        ({
            let sites = crate::titles::unique_of(scan::sites_of(keys));
            let group = scan::groups_of(keys)[i];
            &&& scan::groups_of(keys).len() == sites.len()
            &&& group.0 == sites[i]
            &&& group.1 == crate::titles::unique_of(scan::titles_on(keys, sites[i]))
        }),
{
}

/// Keys give their sites and their titles one by one.
pub proof fn keys_come_one_by_one(
    keys: Seq<(Seq<char>, Seq<char>)>,
    key: (Seq<char>, Seq<char>),
    site: Seq<char>,
)
    ensures
        scan::sites_of(seq![]).len() == 0,
        scan::sites_of(keys.push(key)) == scan::sites_of(keys).push(key.0),
        scan::titles_on(seq![], site).len() == 0,
        scan::titles_on(keys.push(key), site) == if key.0 == site {
            scan::titles_on(keys, site).push(key.1)
        } else {
            scan::titles_on(keys, site)
        },
{
    assert(scan::sites_of(keys.push(key)) =~= scan::sites_of(keys).push(key.0));
    lemma_one_by_one(keys, key, |key: (Seq<char>, Seq<char>)| scan::title_on(key, site));
}

/// Items of Wikidata are asked for by id, articles of any other site by title, and
/// the answers are read alike.
pub proof fn sites_are_asked_by_id_or_title(
    site: Seq<char>,
    titles: Seq<Seq<char>>,
    resp: Json,
)
    ensures
        ({
            let entities = resp.member("entities"@).members();
            if site == "wikidata"@ {
                &&& scan::sitelinks_params(site, titles) == crate::tasks::ill::wikidata::ids_params(
                    titles,
                )
                &&& scan::sitelinks_in(site, resp)
                    == crate::tasks::ill::wikidata::ja_titles_by_id(entities)
            } else {
                &&& scan::sitelinks_params(site, titles)
                    == crate::tasks::ill::wikidata::titles_params(site, titles)
                &&& scan::sitelinks_in(site, resp)
                    == crate::tasks::ill::wikidata::ja_titles_by_title(entities, site)
            }
        }),
{
}

/// Whether a target leads to a Japanese article other than the one that the title
/// already redirects to.
pub open spec fn leads_to(
    target: TargetView,
    sites: Set<Seq<char>>,
    links: Map<(Seq<char>, Seq<char>), Option<Seq<char>>>,
    state: StateView,
    linked: Seq<char>,
) -> bool {
    &&& scan::target_site(sites, target.lang) is Some
    &&& ({
        let key = (
            scan::target_site(sites, target.lang)->0,
            crate::tasks::ill::wikidata::normalized(target.title),
        );
        links.contains_key(key) && links[key] == Some(linked)
    })
    &&& state != StateView::Redirect(linked)
}

/// The first target that leads to an article is the one that is reported, whatever
/// targets follow.
pub proof fn the_first_target_is_reported(
    targets: Seq<TargetView>,
    sites: Set<Seq<char>>,
    links: Map<(Seq<char>, Seq<char>), Option<Seq<char>>>,
    state: StateView,
    i: int,
    linked: Seq<char>,
)
    requires
        0 <= i < targets.len(),
        leads_to(targets[i], sites, links, state, linked),
        forall|j: int, other: Seq<char>|
            0 <= j < i ==> !#[trigger] leads_to(targets[j], sites, links, state, other),
    ensures
        scan::first_match(targets, sites, links, state) == Some((targets[i], linked)),
    decreases i,
{
    if i > 0 {
        let rest = targets.skip(1);
        match scan::worth_reporting(targets[0], sites, links, state) {
            Some(other) => {
                assert(leads_to(targets[0], sites, links, state, other));
            },
            None => {},
        }
        assert(rest[i - 1] == targets[i]);
        assert forall|j: int, other: Seq<char>| 0 <= j < i - 1 implies !#[trigger] leads_to(
            rest[j],
            sites,
            links,
            state,
            other,
        ) by {
            assert(rest[j] == targets[j + 1]);
            assert(!leads_to(targets[j + 1], sites, links, state, other));
        }
        the_first_target_is_reported(rest, sites, links, state, i - 1, linked);
    }
}

/// Where no target leads to an article, none is reported.
pub proof fn no_target_no_report(
    targets: Seq<TargetView>,
    sites: Set<Seq<char>>,
    links: Map<(Seq<char>, Seq<char>), Option<Seq<char>>>,
    state: StateView,
)
    requires
        forall|j: int, other: Seq<char>|
            0 <= j < targets.len() ==> !#[trigger] leads_to(
                targets[j],
                sites,
                links,
                state,
                other,
            ),
    ensures
        scan::first_match(targets, sites, links, state) is None,
    decreases targets.len(),
{
    if targets.len() > 0 {
        let rest = targets.skip(1);
        match scan::worth_reporting(targets[0], sites, links, state) {
            Some(other) => {
                assert(leads_to(targets[0], sites, links, state, other));
            },
            None => {},
        }
        assert forall|j: int, other: Seq<char>| 0 <= j < rest.len() implies !#[trigger] leads_to(
            rest[j],
            sites,
            links,
            state,
            other,
        ) by {
            assert(rest[j] == targets[j + 1]);
            assert(!leads_to(targets[j + 1], sites, links, state, other));
        }
        no_target_no_report(rest, sites, links, state);
    }
}

/// Waiting calls are found one by one, each with its article, its text and what
/// its first target leads to.
pub proof fn findings_come_one_by_one(
    pending: Seq<PendingView>,
    call: PendingView,
    sites: Set<Seq<char>>,
    links: Map<(Seq<char>, Seq<char>), Option<Seq<char>>>,
)
    ensures
        scan::findings_of(seq![], sites, links).len() == 0,
        scan::findings_of(pending.push(call), sites, links) == (match scan::first_match(
            call.call.targets,
            sites,
            links,
            call.state,
        ) {
            Some((target, linked)) => scan::findings_of(pending, sites, links).push(
                FindingView {
                    article: call.article,
                    ja_title: call.call.ja_title,
                    linked,
                    raw: call.call.raw,
                    state: call.state,
                    target,
                },
            ),
            None => scan::findings_of(pending, sites, links),
        }),
{
    lemma_one_by_one(pending, call, |p: PendingView| scan::finding_for(p, sites, links));
}

} // verus!
