//! One round of a scan: which requests to make for a number of articles, and
//! what follows from the replies.
//!
//! Japanese article names are looked up first so that calls already pointing
//! at an article are dropped before the more expensive Wikidata lookups.

use vstd::prelude::*;

use super::caches::Caches;
use super::jawiki::{page_states, page_states_request};
use super::parse::IllCall;
use super::report::Finding;
use super::scan::{
    fetched_calls, findings, found_sitelinks, group_by_site, pending_calls, sitelinks_request,
    titles_to_look_up, wanted_sitelinks, Pending,
};
use super::wikidata::{Wikidata, BATCH};
use crate::api::{page_contents_request, Failure, CONTENT_BATCH};
use crate::batch::{batch, count_batches, end_of_batch};
use crate::json::Json;
use crate::request::Params;

verus! {

/// What a round has come across.
#[derive(Debug, Clone, Copy, PartialEq, Eq, Structural)]
pub struct Counts {
    /// Calls in the articles.
    pub calls: usize,
    /// Japanese article names looked up.
    pub titles: usize,
    /// Requests it takes to look them up.
    pub title_requests: usize,
    /// Counterparts looked up.
    pub sitelinks: usize,
    /// Requests it takes to look them up. Each site is batched separately.
    pub sitelink_requests: usize,
}

/// A round, by what it waits for.
pub enum Round {
    /// The wikitext of the articles of the batch from `at` on.
    Contents { articles: Vec<(u64, String)>, at: usize, calls: Vec<(String, IllCall)> },
    /// The states of the Japanese article names of the batch from `at` on.
    States { calls: Vec<(String, IllCall)>, titles: Vec<String>, at: usize },
    /// The counterparts of the titles of the batch from `at` on, in a group of
    /// titles on one site.
    Links {
        pending: Vec<Pending>,
        groups: Vec<(String, Vec<String>)>,
        group: usize,
        at: usize,
        counts: Counts,
    },
    /// Nothing: these are the findings.
    Ended { found: Vec<Finding>, counts: Counts },
}

/// The contents of a [`Round`].
pub enum RoundView {
    Contents {
        articles: Seq<(u64, Seq<char>)>,
        at: int,
        calls: Seq<(Seq<char>, super::parse::CallView)>,
    },
    States {
        calls: Seq<(Seq<char>, super::parse::CallView)>,
        titles: Seq<Seq<char>>,
        at: int,
    },
    Links {
        pending: Seq<super::scan::PendingView>,
        groups: Seq<(Seq<char>, Seq<Seq<char>>)>,
        group: int,
        at: int,
        counts: Counts,
    },
    Ended { found: Seq<super::report::FindingView>, counts: Counts },
}

impl View for Round {
    type V = RoundView;

    open spec fn view(&self) -> RoundView {
        match self {
            Round::Contents { articles, at, calls } => RoundView::Contents {
                articles: super::scan::article_views(articles@),
                at: *at as int,
                calls: super::scan::found_views(calls@),
            },
            Round::States { calls, titles, at } => RoundView::States {
                calls: super::scan::found_views(calls@),
                titles: crate::text::texts(titles@),
                at: *at as int,
            },
            Round::Links { pending, groups, group, at, counts } => RoundView::Links {
                pending: super::scan::pending_views(pending@),
                groups: super::scan::group_views(groups@),
                group: *group as int,
                at: *at as int,
                counts: *counts,
            },
            Round::Ended { found, counts } => RoundView::Ended {
                found: super::report::finding_views(found@),
                counts: *counts,
            },
        }
    }
}

impl RoundView {
    /// Whether a round waits for something that there is.
    pub open spec fn is_valid(self) -> bool {
        match self {
            RoundView::Contents { articles, at, .. } => 0 <= at < articles.len(),
            RoundView::States { titles, at, .. } => 0 <= at < titles.len(),
            RoundView::Links { groups, group, at, .. } => {
                0 <= group < groups.len() && 0 <= at < groups[group].1.len()
            },
            RoundView::Ended { .. } => true,
        }
    }
}

/// How a request is made.
#[derive(Debug, Clone, Copy, PartialEq, Eq, Structural)]
pub enum Channel {
    /// To the Japanese Wikipedia, retrying transient failures.
    Content,
    /// To the Japanese Wikipedia, as a POST.
    State,
    /// To Wikidata.
    Sitelink,
}

/// What a step of a round leads to: the round, the lookup results, and the
/// language codes to warn of.
#[verifier::ext_equal]
pub struct StepView {
    pub round: RoundView,
    pub caches: super::caches::CachesView,
    pub unknown: Seq<Seq<char>>,
}

/// A round that goes on with the titles from `at` on of a group, or with the
/// next group, or has looked up all.
pub open spec fn links_on(
    pending: Seq<super::scan::PendingView>,
    groups: Seq<(Seq<char>, Seq<Seq<char>>)>,
    group: int,
    at: int,
    counts: Counts,
    sites: Set<Seq<char>>,
    links: Map<(Seq<char>, Seq<char>), Option<Seq<char>>>,
) -> RoundView
    decreases groups.len() - group,
{
    if group >= groups.len() {
        RoundView::Ended { found: super::scan::findings_of(pending, sites, links), counts }
    } else if at < groups[group].1.len() {
        RoundView::Links { pending, groups, group, at, counts }
    } else {
        links_on(pending, groups, group + 1, 0, counts, sites, links)
    }
}

/// How many titles there are in groups, as far as a machine word counts.
pub open spec fn titles_in(groups: Seq<(Seq<char>, Seq<Seq<char>>)>) -> nat
    decreases groups.len(),
{
    if groups.len() == 0 {
        0
    } else {
        let sum = titles_in(groups.drop_last()) + groups.last().1.len();
        if sum > usize::MAX {
            usize::MAX as nat
        } else {
            sum
        }
    }
}

/// How many requests it takes to look up the titles in groups, as far as a
/// machine word counts.
pub open spec fn requests_for(groups: Seq<(Seq<char>, Seq<Seq<char>>)>) -> nat
    decreases groups.len(),
{
    if groups.len() == 0 {
        0
    } else {
        let sum = requests_for(groups.drop_last()) + crate::batch::batches_in(
            groups.last().1.len() as int,
            BATCH as int,
        );
        if sum > usize::MAX {
            usize::MAX as nat
        } else {
            sum as nat
        }
    }
}

fn count_requests(groups: &[(String, Vec<String>)]) -> (n: usize)
    ensures
        n == requests_for(super::scan::group_views(groups@)),
{
    let ghost views = super::scan::group_views(groups@);
    let mut n: usize = 0;
    let mut i: usize = 0;
    assert(views.take(0) =~= seq![]);
    while i < groups.len()
        invariant
            i <= groups@.len(),
            views == super::scan::group_views(groups@),
            n == requests_for(views.take(i as int)),
        decreases groups@.len() - i,
    {
        let more: usize = count_batches(groups[i].1.len(), BATCH);
        proof {
            assert(views.take(i + 1).drop_last() =~= views.take(i as int));
            assert(views.take(i + 1).last() == views[i as int]);
            assert(views[i as int].1.len() == groups@[i as int].1@.len());
        }
        if more > usize::MAX - n {
            n = usize::MAX;
        } else {
            n = n + more;
        }
        i += 1;
    }
    assert(views.take(i as int) =~= views);
    n
}

fn count_titles(groups: &[(String, Vec<String>)]) -> (n: usize)
    ensures
        n == titles_in(super::scan::group_views(groups@)),
{
    let ghost views = super::scan::group_views(groups@);
    let mut n: usize = 0;
    let mut i: usize = 0;
    assert(views.take(0) =~= seq![]);
    while i < groups.len()
        invariant
            i <= groups@.len(),
            views == super::scan::group_views(groups@),
            n == titles_in(views.take(i as int)),
        decreases groups@.len() - i,
    {
        let more: usize = groups[i].1.len();
        proof {
            assert(views.take(i + 1).drop_last() =~= views.take(i as int));
            assert(views.take(i + 1).last() == views[i as int]);
            assert(views[i as int].1.len() == groups@[i as int].1@.len());
        }
        if more > usize::MAX - n {
            n = usize::MAX;
        } else {
            n = n + more;
        }
        i += 1;
    }
    assert(views.take(i as int) =~= views);
    n
}

/// A round that starts looking up counterparts, after so many Japanese article
/// names.
pub open spec fn links_from(
    calls: Seq<(Seq<char>, super::parse::CallView)>,
    titles: nat,
    sites: Set<Seq<char>>,
    caches: super::caches::CachesView,
    size: int,
) -> StepView {
    let pending = super::scan::pending_of(calls, caches.ja);
    let targets = super::scan::all_targets(pending);
    let unknown = super::scan::unknown_of(targets, sites);
    let groups = super::scan::groups_of(super::scan::wanted_of(targets, sites, caches.links));
    StepView {
        round: links_on(
            pending,
            groups,
            0,
            0,
            Counts {
                calls: calls.len() as usize,
                titles: titles as usize,
                title_requests: crate::batch::batches_in(titles as int, size) as usize,
                sitelinks: titles_in(groups) as usize,
                sitelink_requests: requests_for(groups) as usize,
            },
            sites,
            caches.links,
        ),
        caches: super::caches::CachesView {
            ja: caches.ja,
            unknown: caches.unknown.union(unknown.to_set()),
            links: caches.links,
        },
        unknown: crate::titles::unique_of(unknown).filter(
            |lang: Seq<char>| !caches.unknown.contains(lang),
        ),
    }
}

/// A round that goes on looking up Japanese article names at `at`, or has
/// looked up all.
pub open spec fn states_on(
    calls: Seq<(Seq<char>, super::parse::CallView)>,
    titles: Seq<Seq<char>>,
    at: int,
    sites: Set<Seq<char>>,
    caches: super::caches::CachesView,
    size: int,
) -> StepView {
    if at < titles.len() {
        StepView { round: RoundView::States { calls, titles, at }, caches, unknown: seq![] }
    } else {
        links_from(calls, titles.len(), sites, caches, size)
    }
}

/// A round that goes on reading articles at `at`, or has read all.
pub open spec fn contents_on(
    articles: Seq<(u64, Seq<char>)>,
    at: int,
    calls: Seq<(Seq<char>, super::parse::CallView)>,
    sites: Set<Seq<char>>,
    caches: super::caches::CachesView,
    size: int,
) -> StepView {
    if at < articles.len() {
        StepView { round: RoundView::Contents { articles, at, calls }, caches, unknown: seq![] }
    } else {
        states_on(calls, super::scan::titles_wanted(calls, caches.ja), 0, sites, caches, size)
    }
}

/// The page ids of articles.
pub open spec fn ids_of(articles: Seq<(u64, Seq<char>)>) -> Seq<u64> {
    articles.map_values(|article: (u64, Seq<char>)| article.0)
}

/// What becomes of a round when the reply to its request comes in, where
/// `size` Japanese article names are looked up at once.
///
/// A batch whose request fails is skipped, so one bad response does not end the
/// scan.
pub open spec fn round_after(
    round: RoundView,
    sites: Set<Seq<char>>,
    caches: super::caches::CachesView,
    size: int,
    reply: Result<Json, Failure>,
) -> StepView {
    match round {
        RoundView::Contents { articles, at, calls } => contents_on(
            articles,
            crate::batch::batch_end(at, CONTENT_BATCH as int, articles.len() as int),
            match reply {
                Ok(resp) => calls + super::scan::calls_of(
                    resp.member("query"@).member("pages"@).elements(),
                ),
                Err(_) => calls,
            },
            sites,
            caches,
            size,
        ),
        RoundView::States { calls, titles, at } => states_on(
            calls,
            titles,
            crate::batch::batch_end(at, size, titles.len() as int),
            sites,
            match reply {
                Ok(resp) => super::caches::CachesView {
                    ja: caches.ja.union_prefer_right(
                        super::jawiki::states_in(
                            resp,
                            crate::batch::batch_of(titles, at, size),
                        ),
                    ),
                    unknown: caches.unknown,
                    links: caches.links,
                },
                Err(_) => caches,
            },
            size,
        ),
        RoundView::Links { pending, groups, group, at, counts } => {
            let site = groups[group].0;
            let titles = groups[group].1;
            let links = match reply {
                Ok(resp) => super::caches::with_answer(
                    caches.links,
                    site,
                    crate::batch::batch_of(titles, at, BATCH as int),
                    super::scan::sitelinks_in(site, resp),
                ),
                Err(_) => caches.links,
            };
            StepView {
                round: links_on(
                    pending,
                    groups,
                    group,
                    crate::batch::batch_end(at, BATCH as int, titles.len() as int),
                    counts,
                    sites,
                    links,
                ),
                caches: super::caches::CachesView {
                    ja: caches.ja,
                    unknown: caches.unknown,
                    links,
                },
                unknown: seq![],
            }
        },
        RoundView::Ended { .. } => StepView { round, caches, unknown: seq![] },
    }
}

/// The parameters of the request that a round waits for, and how it is made.
pub open spec fn round_params(round: RoundView, size: int) -> Option<
    (Channel, Seq<(Seq<char>, Seq<char>)>),
> {
    match round {
        RoundView::Contents { articles, at, .. } => Some(
            (
                Channel::Content,
                crate::api::page_contents_params(
                    ids_of(crate::batch::batch_of(articles, at, CONTENT_BATCH as int)),
                ),
            ),
        ),
        RoundView::States { titles, at, .. } => Some(
            (
                Channel::State,
                super::jawiki::page_states_params(crate::batch::batch_of(titles, at, size)),
            ),
        ),
        RoundView::Links { groups, group, at, .. } => Some(
            (
                Channel::Sitelink,
                super::scan::sitelinks_params(
                    groups[group].0,
                    crate::batch::batch_of(groups[group].1, at, BATCH as int),
                ),
            ),
        ),
        RoundView::Ended { .. } => None,
    }
}

fn link_on(
    pending: Vec<Pending>,
    groups: Vec<(String, Vec<String>)>,
    group: usize,
    at: usize,
    counts: Counts,
    wikidata: &Wikidata,
    caches: &Caches,
) -> (round: Round)
    requires
        group <= groups@.len(),
    ensures
        round@ == links_on(
            super::scan::pending_views(pending@),
            super::scan::group_views(groups@),
            group as int,
            at as int,
            counts,
            wikidata.sites@,
            caches@.links,
        ),
        round@.is_valid(),
{
    let ghost views = super::scan::group_views(groups@);
    let ghost open = super::scan::pending_views(pending@);
    let mut k: usize = group;
    let mut from: usize = at;
    while k < groups.len() && from >= groups[k].1.len()
        invariant
            k <= groups@.len(),
            views == super::scan::group_views(groups@),
            links_on(
                open,
                views,
                group as int,
                at as int,
                counts,
                wikidata.sites@,
                caches@.links,
            ) == links_on(
                open,
                views,
                k as int,
                from as int,
                counts,
                wikidata.sites@,
                caches@.links,
            ),
        decreases groups@.len() - k,
    {
        assert(views[k as int].1.len() == groups@[k as int].1@.len());
        k += 1;
        from = 0;
    }
    if k < groups.len() {
        assert(views[k as int].1.len() == groups@[k as int].1@.len());
        Round::Links { pending, groups, group: k, at: from, counts }
    } else {
        Round::Ended { found: findings(wikidata, caches, pending.as_slice()), counts }
    }
}

fn link_from(
    calls: Vec<(String, IllCall)>,
    titles: usize,
    wikidata: &Wikidata,
    caches: &mut Caches,
    size: usize,
) -> (step: (Round, Vec<String>))
    requires
        size > 0,
    ensures
        ({
            let expected = links_from(
                super::scan::found_views(calls@),
                titles as nat,
                wikidata.sites@,
                old(caches)@,
                size as int,
            );
            &&& step.0@ == expected.round
            &&& crate::text::texts(step.1@) == expected.unknown
            &&& final(caches)@ == expected.caches
            &&& step.0@.is_valid()
        }),
{
    let pending = pending_calls(calls.as_slice(), caches);
    let (keys, unknown) = wanted_sitelinks(wikidata, caches, pending.as_slice());
    let groups = group_by_site(keys.as_slice());
    let counts = Counts {
        calls: calls.len(),
        titles,
        title_requests: count_batches(titles, size),
        sitelinks: count_titles(groups.as_slice()),
        sitelink_requests: count_requests(groups.as_slice()),
    };
    assert(super::scan::found_views(calls@).len() == calls@.len());
    let round = link_on(pending, groups, 0, 0, counts, wikidata, caches);
    (round, unknown)
}

fn state_on(
    calls: Vec<(String, IllCall)>,
    titles: Vec<String>,
    at: usize,
    wikidata: &Wikidata,
    caches: &mut Caches,
    size: usize,
) -> (step: (Round, Vec<String>))
    requires
        at <= titles@.len(),
        size > 0,
    ensures
        ({
            let expected = states_on(
                super::scan::found_views(calls@),
                crate::text::texts(titles@),
                at as int,
                wikidata.sites@,
                old(caches)@,
                size as int,
            );
            &&& step.0@ == expected.round
            &&& crate::text::texts(step.1@) == expected.unknown
            &&& final(caches)@ == expected.caches
            &&& step.0@.is_valid()
        }),
{
    if at < titles.len() {
        let none: Vec<String> = Vec::new();
        assert(crate::text::texts(none@) =~= seq![]);
        (Round::States { calls, titles, at }, none)
    } else {
        let n: usize = titles.len();
        assert(crate::text::texts(titles@).len() == titles@.len());
        link_from(calls, n, wikidata, caches, size)
    }
}

fn read_on(
    articles: Vec<(u64, String)>,
    at: usize,
    calls: Vec<(String, IllCall)>,
    wikidata: &Wikidata,
    caches: &mut Caches,
    size: usize,
) -> (step: (Round, Vec<String>))
    requires
        at <= articles@.len(),
        size > 0,
    ensures
        ({
            let expected = contents_on(
                super::scan::article_views(articles@),
                at as int,
                super::scan::found_views(calls@),
                wikidata.sites@,
                old(caches)@,
                size as int,
            );
            &&& step.0@ == expected.round
            &&& crate::text::texts(step.1@) == expected.unknown
            &&& final(caches)@ == expected.caches
            &&& step.0@.is_valid()
        }),
{
    if at < articles.len() {
        let none: Vec<String> = Vec::new();
        assert(crate::text::texts(none@) =~= seq![]);
        (Round::Contents { articles, at, calls }, none)
    } else {
        let titles = titles_to_look_up(calls.as_slice(), caches);
        state_on(calls, titles, 0, wikidata, caches, size)
    }
}

fn append_calls(calls: &mut Vec<(String, IllCall)>, more: Vec<(String, IllCall)>)
    ensures
        super::scan::found_views(final(calls)@) == super::scan::found_views(old(calls)@)
            + super::scan::found_views(more@),
{
    let ghost added = more@;
    let mut more = more;
    calls.append(&mut more);
    assert(super::scan::found_views(calls@) =~= super::scan::found_views(old(calls)@)
        + super::scan::found_views(added));
}

fn article_ids(articles: &[(u64, String)]) -> (ids: Vec<u64>)
    ensures
        ids@ == ids_of(super::scan::article_views(articles@)),
{
    let ghost all = ids_of(super::scan::article_views(articles@));
    let mut ids: Vec<u64> = Vec::new();
    let mut i: usize = 0;
    while i < articles.len()
        invariant
            i <= articles@.len(),
            all == ids_of(super::scan::article_views(articles@)),
            ids@ == all.take(i as int),
        decreases articles@.len() - i,
    {
        ids.push(articles[i].0);
        i += 1;
        assert(ids@ =~= all.take(i as int));
    }
    assert(all.take(i as int) =~= all);
    ids
}

impl Round {
    /// Start a round over articles, saying of which language codes to warn.
    /// `size` Japanese article names are looked up at once.
    pub fn start(
        articles: Vec<(u64, String)>,
        wikidata: &Wikidata,
        caches: &mut Caches,
        size: usize,
    ) -> (step: (Round, Vec<String>))
        requires
            size > 0,
        ensures
            ({
                let expected = contents_on(
                    super::scan::article_views(articles@),
                    0,
                    seq![],
                    wikidata.sites@,
                    old(caches)@,
                    size as int,
                );
                &&& step.0@ == expected.round
                &&& crate::text::texts(step.1@) == expected.unknown
                &&& final(caches)@ == expected.caches
                &&& step.0@.is_valid()
            }),
    {
        let none: Vec<(String, IllCall)> = Vec::new();
        assert(super::scan::found_views(none@) =~= seq![]);
        read_on(articles, 0, none, wikidata, caches, size)
    }

    /// The request that the round waits for, unless it has ended.
    pub fn request(&self, size: usize) -> (request: Option<(Channel, Params)>)
        requires
            self@.is_valid(),
        ensures
            match request {
                Some((channel, params)) => round_params(self@, size as int) == Some(
                    (channel, crate::request::param_views(params@)),
                ),
                None => round_params(self@, size as int) is None,
            },
    {
        match self {
            Round::Contents { articles, at, .. } => {
                let part = batch(articles.as_slice(), *at, CONTENT_BATCH);
                assert(super::scan::article_views(part@) =~= crate::batch::batch_of(
                    super::scan::article_views(articles@),
                    *at as int,
                    CONTENT_BATCH as int,
                ));
                let ids = article_ids(part);
                Some((Channel::Content, page_contents_request(ids.as_slice())))
            },
            Round::States { titles, at, .. } => {
                let part = batch(titles.as_slice(), *at, size);
                assert(crate::text::texts(part@) =~= crate::batch::batch_of(
                    crate::text::texts(titles@),
                    *at as int,
                    size as int,
                ));
                Some((Channel::State, page_states_request(part)))
            },
            Round::Links { groups, group, at, .. } => {
                let titles = &groups[*group].1;
                let part = batch(titles.as_slice(), *at, BATCH);
                proof {
                    assert(super::scan::group_views(groups@)[*group as int].1
                        == crate::text::texts(titles@));
                    assert(crate::text::texts(part@) =~= crate::batch::batch_of(
                        crate::text::texts(titles@),
                        *at as int,
                        BATCH as int,
                    ));
                }
                Some((Channel::Sitelink, sitelinks_request(groups[*group].0.as_str(), part)))
            },
            Round::Ended { .. } => None,
        }
    }

    /// Go on with the reply to the request, saying of which language codes to
    /// warn.
    pub fn answer(
        self,
        wikidata: &Wikidata,
        caches: &mut Caches,
        size: usize,
        reply: Result<Json, Failure>,
    ) -> (step: (Round, Vec<String>))
        requires
            self@.is_valid(),
            size > 0,
        ensures
            ({
                let expected = round_after(
                    self@,
                    wikidata.sites@,
                    old(caches)@,
                    size as int,
                    reply,
                );
                &&& step.0@ == expected.round
                &&& crate::text::texts(step.1@) == expected.unknown
                &&& final(caches)@ == expected.caches
                &&& step.0@.is_valid()
            }),
    {
        match self {
            Round::Contents { articles, at, calls } => {
                let end: usize = end_of_batch(at, CONTENT_BATCH, articles.len());
                let mut calls = calls;
                if let Ok(resp) = &reply {
                    append_calls(&mut calls, fetched_calls(resp));
                }
                read_on(articles, end, calls, wikidata, caches, size)
            },
            Round::States { calls, titles, at } => {
                let end: usize = end_of_batch(at, size, titles.len());
                if let Ok(resp) = &reply {
                    let part = batch(titles.as_slice(), at, size);
                    assert(crate::text::texts(part@) =~= crate::batch::batch_of(
                        crate::text::texts(titles@),
                        at as int,
                        size as int,
                    ));
                    caches.record_states(page_states(resp, part));
                }
                state_on(calls, titles, end, wikidata, caches, size)
            },
            Round::Links { pending, groups, group, at, counts } => {
                let none: Vec<String> = Vec::new();
                assert(crate::text::texts(none@) =~= seq![]);
                let ghost views = super::scan::group_views(groups@);
                assert(views[group as int] == (
                    groups@[group as int].0@,
                    crate::text::texts(groups@[group as int].1@),
                ));
                let end: usize = end_of_batch(at, BATCH, groups[group].1.len());
                if let Ok(resp) = &reply {
                    let site = groups[group].0.as_str();
                    let part = batch(groups[group].1.as_slice(), at, BATCH);
                    assert(crate::text::texts(part@) =~= crate::batch::batch_of(
                        views[group as int].1,
                        at as int,
                        BATCH as int,
                    ));
                    let found = found_sitelinks(site, resp);
                    caches.record_links(site, part, &found);
                }
                let round = link_on(pending, groups, group, end, counts, wikidata, caches);
                (round, none)
            },
            Round::Ended { found, counts } => {
                let none: Vec<String> = Vec::new();
                assert(crate::text::texts(none@) =~= seq![]);
                (Round::Ended { found, counts }, none)
            },
        }
    }
}

} // verus!
