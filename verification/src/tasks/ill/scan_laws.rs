//! Laws of the scan.

use vstd::prelude::*;

verus! {

/// Whatever comes out of a filter came from something that went in.
pub proof fn lemma_filter_map_source<A, B>(s: Seq<A>, f: spec_fn(A) -> Option<B>, i: int)
    requires
        0 <= i < s.filter_map(f).len(),
    ensures
        exists|k: int| 0 <= k < s.len() && f(#[trigger] s[k]) == Some(s.filter_map(f)[i]),
    decreases s.len(),
{
    let rest = s.drop_last();
    if i < rest.filter_map(f).len() {
        lemma_filter_map_source(rest, f, i);
        let k = choose|k: int|
            0 <= k < rest.len() && f(#[trigger] rest[k]) == Some(rest.filter_map(f)[i]);
        assert(s[k] == rest[k]);
    } else {
        assert(f(s[s.len() - 1]) == Some(s.filter_map(f)[i]));
    }
}

/// What a filter lets through comes out of it.
pub proof fn lemma_filter_map_keeps<A, B>(s: Seq<A>, f: spec_fn(A) -> Option<B>, k: int, v: B)
    requires
        0 <= k < s.len(),
        f(s[k]) == Some(v),
    ensures
        s.filter_map(f).contains(v),
    decreases s.len(),
{
    let rest = s.drop_last();
    let out = s.filter_map(f);
    if k == s.len() - 1 {
        assert(out[out.len() - 1] == v);
    } else {
        lemma_filter_map_keeps(rest, f, k, v);
        let i = rest.filter_map(f).index_of(v);
        assert(out[i] == v);
    }
}

proof fn lemma_first_match(
    targets: Seq<super::parse::TargetView>,
    sites: Set<Seq<char>>,
    links: Map<(Seq<char>, Seq<char>), Option<Seq<char>>>,
    state: super::jawiki::StateView,
)
    ensures
        match super::scan::first_match(targets, sites, links, state) {
            Some((target, linked)) => targets.contains(target) && super::scan::worth_reporting(
                target,
                sites,
                links,
                state,
            ) == Some(linked),
            None => forall|i: int|
                0 <= i < targets.len() ==> super::scan::worth_reporting(
                    #[trigger] targets[i],
                    sites,
                    links,
                    state,
                ) is None,
        },
    decreases targets.len(),
{
    if targets.len() > 0 {
        assert(targets.contains(targets[0]));
        let rest = targets.skip(1);
        lemma_first_match(rest, sites, links, state);
        match super::scan::first_match(rest, sites, links, state) {
            Some((target, _)) => {
                let k = rest.index_of(target);
                assert(targets[k + 1] == target);
            },
            None => {
                assert forall|i: int|
                    1 <= i < targets.len() implies super::scan::worth_reporting(
                    #[trigger] targets[i],
                    sites,
                    links,
                    state,
                ) is None by {
                    assert(rest[i - 1] == targets[i]);
                }
            },
        }
    }
}

/// The findings of a round of calls.
pub open spec fn evaluated(
    calls: Seq<(Seq<char>, super::parse::CallView)>,
    ja: Map<Seq<char>, super::jawiki::StateView>,
    sites: Set<Seq<char>>,
    links: Map<(Seq<char>, Seq<char>), Option<Seq<char>>>,
) -> Seq<super::report::FindingView> {
    super::scan::findings_of(super::scan::pending_of(calls, ja), sites, links)
}

/// Every finding stems from a call whose Japanese article name is missing or a
/// redirect, names one of its targets, and links to the Japanese article of
/// that target, which is not what the redirect already resolves to.
pub proof fn every_finding_is_due(
    calls: Seq<(Seq<char>, super::parse::CallView)>,
    ja: Map<Seq<char>, super::jawiki::StateView>,
    sites: Set<Seq<char>>,
    links: Map<(Seq<char>, Seq<char>), Option<Seq<char>>>,
    i: int,
)
    requires
        0 <= i < evaluated(calls, ja, sites, links).len(),
    ensures
        ({
            let finding = evaluated(calls, ja, sites, links)[i];
            &&& ja.contains_key(finding.ja_title)
            &&& ja[finding.ja_title] == finding.state
            &&& finding.state !is Exists
            &&& finding.state != super::jawiki::StateView::Redirect(finding.linked)
            &&& super::scan::target_key(sites, finding.target) is Some
            &&& links.contains_key(super::scan::target_key(sites, finding.target)->0)
            &&& links[super::scan::target_key(sites, finding.target)->0] == Some(finding.linked)
            &&& exists|k: int|
                0 <= k < calls.len() && (#[trigger] calls[k]).0 == finding.article
                    && calls[k].1.ja_title == finding.ja_title && calls[k].1.raw == finding.raw
                    && calls[k].1.targets.contains(finding.target)
        }),
{
    let pending = super::scan::pending_of(calls, ja);
    let to_finding = |p: super::scan::PendingView| super::scan::finding_for(p, sites, links);
    let to_pending = |found: (Seq<char>, super::parse::CallView)|
        super::scan::pending_call(found, ja);
    let finding = evaluated(calls, ja, sites, links)[i];
    lemma_filter_map_source(pending, to_finding, i);
    let j = choose|j: int|
        0 <= j < pending.len() && to_finding(#[trigger] pending[j]) == Some(finding);
    let p = pending[j];
    lemma_first_match(p.call.targets, sites, links, p.state);
    lemma_filter_map_source(calls, to_pending, j);
    let k = choose|k: int| 0 <= k < calls.len() && to_pending(#[trigger] calls[k]) == Some(p);
    assert(calls[k].0 == finding.article);
}

/// A call whose Japanese article name is missing or a redirect is reported when
/// one of its targets has a Japanese article other than the one the redirect
/// resolves to.
pub proof fn every_replaceable_call_is_reported(
    calls: Seq<(Seq<char>, super::parse::CallView)>,
    ja: Map<Seq<char>, super::jawiki::StateView>,
    sites: Set<Seq<char>>,
    links: Map<(Seq<char>, Seq<char>), Option<Seq<char>>>,
    k: int,
    t: int,
    linked: Seq<char>,
)
    requires
        0 <= k < calls.len(),
        ja.contains_key(calls[k].1.ja_title),
        ja[calls[k].1.ja_title] !is Exists,
        0 <= t < calls[k].1.targets.len(),
        super::scan::target_key(sites, calls[k].1.targets[t]) is Some,
        links.contains_key(super::scan::target_key(sites, calls[k].1.targets[t])->0),
        links[super::scan::target_key(sites, calls[k].1.targets[t])->0] == Some(linked),
        ja[calls[k].1.ja_title] != super::jawiki::StateView::Redirect(linked),
    ensures
        exists|i: int|
            0 <= i < evaluated(calls, ja, sites, links).len() && (#[trigger] evaluated(
                calls,
                ja,
                sites,
                links,
            )[i]).article == calls[k].0 && evaluated(calls, ja, sites, links)[i].raw
                == calls[k].1.raw && evaluated(calls, ja, sites, links)[i].ja_title
                == calls[k].1.ja_title,
{
    let pending = super::scan::pending_of(calls, ja);
    let to_finding = |p: super::scan::PendingView| super::scan::finding_for(p, sites, links);
    let to_pending = |found: (Seq<char>, super::parse::CallView)|
        super::scan::pending_call(found, ja);
    let p = super::scan::pending_call(calls[k], ja)->0;
    lemma_filter_map_keeps(calls, to_pending, k, p);
    let j = pending.index_of(p);
    lemma_first_match(p.call.targets, sites, links, p.state);
    assert(super::scan::worth_reporting(p.call.targets[t], sites, links, p.state) == Some(linked));
    let finding = super::scan::finding_for(p, sites, links)->0;
    lemma_filter_map_keeps(pending, to_finding, j, finding);
    let i = evaluated(calls, ja, sites, links).index_of(finding);
    assert(evaluated(calls, ja, sites, links)[i] == finding);
}

/// A call that already points at an article gives no finding.
pub proof fn calls_to_articles_are_not_reported(
    article: Seq<char>,
    call: super::parse::CallView,
    ja: Map<Seq<char>, super::jawiki::StateView>,
    sites: Set<Seq<char>>,
    links: Map<(Seq<char>, Seq<char>), Option<Seq<char>>>,
)
    requires
        ja.contains_key(call.ja_title),
        ja[call.ja_title] is Exists,
    ensures
        evaluated(seq![(article, call)], ja, sites, links).len() == 0,
{
    let calls = seq![(article, call)];
    let to_pending = |found: (Seq<char>, super::parse::CallView)|
        super::scan::pending_call(found, ja);
    assert(calls.drop_last() =~= seq![]);
    assert(calls.drop_last().filter_map(to_pending) =~= seq![]);
    assert(super::scan::pending_of(calls, ja) =~= seq![]);
}

/// The Japanese article names to look up are all different, none of them is
/// known yet, and every name that is not known is among them.
pub proof fn names_are_looked_up_once(
    calls: Seq<(Seq<char>, super::parse::CallView)>,
    ja: Map<Seq<char>, super::jawiki::StateView>,
    title: Seq<char>,
)
    ensures
        super::scan::titles_wanted(calls, ja).no_duplicates(),
        super::scan::titles_wanted(calls, ja).contains(title) == (super::scan::ja_titles(
            calls,
        ).contains(title) && !ja.contains_key(title)),
{
    let names = super::scan::ja_titles(calls);
    let once = crate::titles::unique_of(names);
    let fresh = |title: Seq<char>| !ja.contains_key(title);
    crate::titles::unique_has_no_duplicates(names);
    crate::titles::unique_keeps_every_value(names, title);
    lemma_filter_keeps_distinct(once, fresh);
    lemma_filter_contains(once, fresh, title);
}

/// Filtering keeps what is in a list and wanted.
pub proof fn lemma_filter_contains<A>(s: Seq<A>, p: spec_fn(A) -> bool, v: A)
    ensures
        s.filter(p).contains(v) == (s.contains(v) && p(v)),
    decreases s.len(),
{
    reveal(Seq::filter);
    if s.len() > 0 {
        lemma_filter_contains(s.drop_last(), p, v);
        assert(s =~= s.drop_last().push(s.last()));
        crate::titles::lemma_push_contains(s.drop_last(), s.last(), v);
        crate::titles::lemma_push_contains(s.drop_last().filter(p), s.last(), v);
    }
}

proof fn lemma_filter_keeps_distinct<A>(s: Seq<A>, p: spec_fn(A) -> bool)
    requires
        s.no_duplicates(),
    ensures
        s.filter(p).no_duplicates(),
    decreases s.len(),
{
    reveal(Seq::filter);
    if s.len() > 0 {
        let rest = s.drop_last();
        lemma_filter_keeps_distinct(rest, p);
        lemma_filter_contains(rest, p, s.last());
        if rest.contains(s.last()) {
            let k = rest.index_of(s.last());
            assert(s[k] == s[s.len() - 1]);
        }
        let out = s.filter(p);
        let before = rest.filter(p);
        if p(s.last()) {
            assert(out =~= before.push(s.last()));
            assert forall|i: int, j: int|
                0 <= i < out.len() && 0 <= j < out.len() && i != j implies out[i] != out[j] by {
                if i < before.len() {
                    assert(before.contains(out[i]));
                }
                if j < before.len() {
                    assert(before.contains(out[j]));
                }
            }
        }
    }
}

/// Grouping by site asks for every wanted counterpart, and for nothing else.
pub proof fn grouping_asks_for_what_is_wanted(
    keys: Seq<(Seq<char>, Seq<char>)>,
    site: Seq<char>,
    title: Seq<char>,
)
    ensures
        keys.contains((site, title)) == (crate::titles::unique_of(
            super::scan::sites_of(keys),
        ).contains(site) && crate::titles::unique_of(super::scan::titles_on(keys, site)).contains(
            title,
        )),
        crate::titles::unique_of(super::scan::sites_of(keys)).no_duplicates(),
        crate::titles::unique_of(super::scan::titles_on(keys, site)).no_duplicates(),
{
    let sites = super::scan::sites_of(keys);
    let titles = super::scan::titles_on(keys, site);
    let on_site = |key: (Seq<char>, Seq<char>)| super::scan::title_on(key, site);
    crate::titles::unique_keeps_every_value(sites, site);
    crate::titles::unique_keeps_every_value(titles, title);
    crate::titles::unique_has_no_duplicates(sites);
    crate::titles::unique_has_no_duplicates(titles);
    if keys.contains((site, title)) {
        let k = keys.index_of((site, title));
        assert(sites[k] == site);
        lemma_filter_map_keeps(keys, on_site, k, title);
    }
    if titles.contains(title) {
        let i = titles.index_of(title);
        lemma_filter_map_source(keys, on_site, i);
        let k = choose|k: int| 0 <= k < keys.len() && on_site(#[trigger] keys[k]) == Some(titles[i]);
        assert(keys[k] == (site, title));
    }
}

/// Once every wanted counterpart has an entry, none is wanted any more.
pub proof fn answered_lookups_are_not_repeated(
    targets: Seq<super::parse::TargetView>,
    sites: Set<Seq<char>>,
    links: Map<(Seq<char>, Seq<char>), Option<Seq<char>>>,
    later: Map<(Seq<char>, Seq<char>), Option<Seq<char>>>,
)
    requires
        forall|key: (Seq<char>, Seq<char>)|
            links.contains_key(key) || super::scan::wanted_of(targets, sites, links).contains(key)
                ==> #[trigger] later.contains_key(key),
    ensures
        super::scan::wanted_of(targets, sites, later).len() == 0,
{
    let wanted = |target: super::parse::TargetView| super::scan::wanted_key(target, sites, later);
    let earlier = |target: super::parse::TargetView| super::scan::wanted_key(target, sites, links);
    if super::scan::wanted_of(targets, sites, later).len() > 0 {
        lemma_filter_map_source(targets, wanted, 0);
        let key = super::scan::wanted_of(targets, sites, later)[0];
        let k = choose|k: int|
            0 <= k < targets.len() && wanted(#[trigger] targets[k]) == Some(key);
        if !links.contains_key(key) {
            lemma_filter_map_keeps(targets, earlier, k, key);
        }
        assert(later.contains_key(key));
    }
}

/// Adding round after round lists the first findings of the whole scan. A report
/// on them lists all of them.
pub proof fn rounds_list_the_first_findings<T>(findings: Seq<T>, found: Seq<T>)
    ensures
        ({
            let room = super::report::REPORT_LIMIT - super::report::listed(findings).len();
            super::report::listed(findings + found) == super::report::listed(findings) + (
            if found.len() < room {
                found
            } else {
                found.take(room)
            })
        }),
        super::report::listed(super::report::listed(findings)) == super::report::listed(findings),
{
    let room = super::report::REPORT_LIMIT - super::report::listed(findings).len();
    assert(super::report::listed(findings + found) =~= super::report::listed(findings) + (
    if found.len() < room {
        found
    } else {
        found.take(room)
    }));
    assert(super::report::listed(super::report::listed(findings)) =~= super::report::listed(
        findings,
    ));
}

} // verus!
