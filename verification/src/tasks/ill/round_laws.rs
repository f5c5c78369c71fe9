//! Laws of the rounds of a scan.

use vstd::prelude::*;

verus! {

/// How much of a round is left: the stage, what the stage has still to do, and
/// what the group under way has still to do.
pub open spec fn work_left(round: super::round::RoundView) -> (nat, nat, nat) {
    match round {
        super::round::RoundView::Contents { articles, at, .. } => {
            (3, (articles.len() - at) as nat, 0)
        },
        super::round::RoundView::States { titles, at, .. } => (2, (titles.len() - at) as nat, 0),
        super::round::RoundView::Links { groups, group, at, .. } => {
            (1, (groups.len() - group) as nat, (groups[group].1.len() - at) as nat)
        },
        super::round::RoundView::Ended { .. } => (0, 0, 0),
    }
}

proof fn lemma_links_on(
    pending: Seq<super::scan::PendingView>,
    groups: Seq<(Seq<char>, Seq<Seq<char>>)>,
    group: int,
    at: int,
    counts: super::round::Counts,
    sites: Set<Seq<char>>,
    links: Map<(Seq<char>, Seq<char>), Option<Seq<char>>>,
)
    requires
        0 <= group <= groups.len(),
        0 <= at,
    ensures
        match super::round::links_on(pending, groups, group, at, counts, sites, links) {
            super::round::RoundView::Links { pending: p, groups: g, group: k, at: from, .. } => {
                &&& p == pending
                &&& g == groups
                &&& group <= k < groups.len()
                &&& k == group ==> from == at
                &&& 0 <= from < groups[k].1.len()
            },
            super::round::RoundView::Ended { found, .. } => found == super::scan::findings_of(
                pending,
                sites,
                links,
            ),
            _ => false,
        },
    decreases groups.len() - group,
{
    if group < groups.len() && at >= groups[group].1.len() {
        lemma_links_on(pending, groups, group + 1, 0, counts, sites, links);
    }
}

/// Every reply, whether it is a response or a failure, brings a round nearer to
/// its end. So a round makes finitely many requests.
pub proof fn every_reply_brings_a_round_nearer_its_end(
    round: super::round::RoundView,
    sites: Set<Seq<char>>,
    caches: super::caches::CachesView,
    size: int,
    reply: Result<crate::json::Json, crate::api::Failure>,
)
    requires
        round.is_valid(),
        size > 0,
        super::round::round_params(round, size) is Some,
    ensures
        ({
            let before = work_left(round);
            let now = work_left(
                super::round::round_after(round, sites, caches, size, reply).round,
            );
            ||| now.0 < before.0
            ||| now.0 == before.0 && now.1 < before.1
            ||| now.0 == before.0 && now.1 == before.1 && now.2 < before.2
        }),
{
    let step = super::round::round_after(round, sites, caches, size, reply);
    match round {
        super::round::RoundView::Contents { articles, at, calls } => {
            let all = match reply {
                Ok(resp) => calls + super::scan::calls_of(
                    resp.member("query"@).member("pages"@).elements(),
                ),
                Err(_) => calls,
            };
            lemma_links_from(
                all,
                super::scan::titles_wanted(all, caches.ja).len(),
                sites,
                caches,
                size,
            );
        },
        super::round::RoundView::States { calls, titles, at } => {
            let known = match reply {
                Ok(resp) => super::caches::CachesView {
                    ja: caches.ja.union_prefer_right(
                        super::jawiki::states_in(resp, crate::batch::batch_of(titles, at, size)),
                    ),
                    unknown: caches.unknown,
                    links: caches.links,
                },
                Err(_) => caches,
            };
            lemma_links_from(calls, titles.len(), sites, known, size);
        },
        super::round::RoundView::Links { pending, groups, group, at, counts } => {
            let end = crate::batch::batch_end(
                at,
                super::wikidata::BATCH as int,
                groups[group].1.len() as int,
            );
            lemma_links_on(pending, groups, group, end, counts, sites, step.caches.links);
        },
        super::round::RoundView::Ended { .. } => {},
    }
}

/// Whether a round that has read its articles is about these calls, and has
/// evaluated them where it has ended.
spec fn is_about(
    round: super::round::RoundView,
    calls: Seq<(Seq<char>, super::parse::CallView)>,
    sites: Set<Seq<char>>,
    caches: super::caches::CachesView,
) -> bool {
    &&& round.is_valid()
    &&& match round {
        super::round::RoundView::Contents { .. } => false,
        super::round::RoundView::States { calls: held, .. } => held == calls,
        super::round::RoundView::Links { pending, .. } => pending == super::scan::pending_of(
            calls,
            caches.ja,
        ),
        super::round::RoundView::Ended { found, .. } => found == super::scan_laws::evaluated(
            calls,
            caches.ja,
            sites,
            caches.links,
        ),
    }
}

proof fn lemma_links_from(
    calls: Seq<(Seq<char>, super::parse::CallView)>,
    titles: nat,
    sites: Set<Seq<char>>,
    caches: super::caches::CachesView,
    size: int,
)
    ensures
        ({
            let step = super::round::links_from(calls, titles, sites, caches, size);
            &&& step.round is Links || step.round is Ended
            &&& is_about(step.round, calls, sites, step.caches)
        }),
{
    let pending = super::scan::pending_of(calls, caches.ja);
    let targets = super::scan::all_targets(pending);
    let groups = super::scan::groups_of(super::scan::wanted_of(targets, sites, caches.links));
    let counts = super::round::Counts {
        calls: calls.len() as usize,
        titles: titles as usize,
        title_requests: crate::batch::batches_in(titles as int, size) as usize,
        sitelinks: super::round::titles_in(groups) as usize,
        sitelink_requests: super::round::requests_for(groups) as usize,
    };
    lemma_links_on(pending, groups, 0, 0, counts, sites, caches.links);
}

/// A round that ends without looking up counterparts, because all of them are
/// known, has evaluated its calls by what is known.
pub proof fn known_counterparts_are_not_looked_up(
    calls: Seq<(Seq<char>, super::parse::CallView)>,
    titles: nat,
    sites: Set<Seq<char>>,
    caches: super::caches::CachesView,
    size: int,
)
    requires
        super::scan::wanted_of(
            super::scan::all_targets(super::scan::pending_of(calls, caches.ja)),
            sites,
            caches.links,
        ).len() == 0,
    ensures
        match super::round::links_from(calls, titles, sites, caches, size).round {
            super::round::RoundView::Ended { found, counts } => {
                &&& found == super::scan_laws::evaluated(calls, caches.ja, sites, caches.links)
                &&& counts.sitelinks == 0
                &&& counts.sitelink_requests == 0
            },
            _ => false,
        },
{
    let pending = super::scan::pending_of(calls, caches.ja);
    let keys = super::scan::wanted_of(super::scan::all_targets(pending), sites, caches.links);
    assert(super::scan::sites_of(keys).len() == 0);
    assert(super::scan::groups_of(keys).len() == 0);
}

/// While counterparts are looked up, the pending calls stay the same, and when
/// the last of them is in, the findings are those of the pending calls by all
/// that is known then.
pub proof fn a_round_ends_with_the_findings_of_its_calls(
    round: super::round::RoundView,
    sites: Set<Seq<char>>,
    caches: super::caches::CachesView,
    size: int,
    reply: Result<crate::json::Json, crate::api::Failure>,
)
    requires
        round.is_valid(),
        round is Links,
    ensures
        ({
            let step = super::round::round_after(round, sites, caches, size, reply);
            match step.round {
                super::round::RoundView::Links { pending, .. } => pending
                    == round->Links_pending,
                super::round::RoundView::Ended { found, .. } => found == super::scan::findings_of(
                    round->Links_pending,
                    sites,
                    step.caches.links,
                ),
                _ => false,
            }
        }),
{
    let step = super::round::round_after(round, sites, caches, size, reply);
    if let super::round::RoundView::Links { pending, groups, group, at, counts } = round {
        let end = crate::batch::batch_end(
            at,
            super::wikidata::BATCH as int,
            groups[group].1.len() as int,
        );
        lemma_links_on(pending, groups, group, end, counts, sites, step.caches.links);
    }
}

/// How many requests for the states of Japanese article names a round has still
/// to make, of those that it knows of.
pub open spec fn title_requests_left(round: super::round::RoundView, size: int) -> int {
    match round {
        super::round::RoundView::States { titles, at, .. } => crate::batch::batches_in(
            titles.len() - at,
            size,
        ),
        _ => 0,
    }
}

/// How many requests for counterparts a round has still to make, of those that
/// it knows of.
pub open spec fn sitelink_requests_left(round: super::round::RoundView) -> int {
    match round {
        super::round::RoundView::Links { groups, group, at, .. } => crate::batch::batches_in(
            groups[group].1.len() - at,
            super::wikidata::BATCH as int,
        ) + requests_from(groups, group + 1),
        _ => 0,
    }
}

/// How many requests it takes to look up the titles in groups from one on.
pub open spec fn requests_from(groups: Seq<(Seq<char>, Seq<Seq<char>>)>, group: int) -> int
    decreases groups.len() - group,
{
    if group >= groups.len() {
        0
    } else {
        crate::batch::batches_in(groups[group].1.len() as int, super::wikidata::BATCH as int)
            + requests_from(groups, group + 1)
    }
}

proof fn lemma_requests_from_without_last(groups: Seq<(Seq<char>, Seq<Seq<char>>)>, group: int)
    requires
        0 <= group < groups.len(),
    ensures
        requests_from(groups, group) == requests_from(groups.drop_last(), group)
            + crate::batch::batches_in(
            groups.last().1.len() as int,
            super::wikidata::BATCH as int,
        ),
    decreases groups.len() - group,
{
    if group + 1 < groups.len() {
        lemma_requests_from_without_last(groups, group + 1);
        assert(groups.drop_last()[group] == groups[group]);
    } else {
        assert(requests_from(groups, group + 1) == 0);
    }
}

proof fn lemma_requests_for(groups: Seq<(Seq<char>, Seq<Seq<char>>)>)
    ensures
        super::round::requests_for(groups) <= usize::MAX,
        super::round::requests_for(groups) < usize::MAX ==> super::round::requests_for(groups)
            == requests_from(groups, 0),
    decreases groups.len(),
{
    if groups.len() > 0 {
        lemma_requests_for(groups.drop_last());
        lemma_requests_from_without_last(groups, 0);
    }
}

proof fn lemma_links_on_requests(
    pending: Seq<super::scan::PendingView>,
    groups: Seq<(Seq<char>, Seq<Seq<char>>)>,
    group: int,
    at: int,
    counts: super::round::Counts,
    sites: Set<Seq<char>>,
    links: Map<(Seq<char>, Seq<char>), Option<Seq<char>>>,
)
    requires
        0 <= group < groups.len(),
        0 <= at <= groups[group].1.len(),
    ensures
        sitelink_requests_left(
            super::round::links_on(pending, groups, group, at, counts, sites, links),
        ) == crate::batch::batches_in(
            groups[group].1.len() - at,
            super::wikidata::BATCH as int,
        ) + requests_from(groups, group + 1),
    decreases groups.len() - group,
{
    reveal_with_fuel(super::round::links_on, 2);
    if at >= groups[group].1.len() && group + 1 < groups.len() {
        lemma_links_on_requests(pending, groups, group + 1, 0, counts, sites, links);
    }
}

proof fn lemma_links_on_counts(
    pending: Seq<super::scan::PendingView>,
    groups: Seq<(Seq<char>, Seq<Seq<char>>)>,
    group: int,
    at: int,
    counts: super::round::Counts,
    sites: Set<Seq<char>>,
    links: Map<(Seq<char>, Seq<char>), Option<Seq<char>>>,
)
    ensures
        match super::round::links_on(pending, groups, group, at, counts, sites, links) {
            super::round::RoundView::Links { counts: held, .. } => held == counts,
            super::round::RoundView::Ended { counts: held, .. } => held == counts,
            _ => false,
        },
    decreases groups.len() - group,
{
    if group < groups.len() && at >= groups[group].1.len() {
        lemma_links_on_counts(pending, groups, group + 1, 0, counts, sites, links);
    }
}

/// Each reply on names or on counterparts leaves one request less of its kind.
pub proof fn each_reply_leaves_one_request_less(
    round: super::round::RoundView,
    sites: Set<Seq<char>>,
    caches: super::caches::CachesView,
    size: int,
    reply: Result<crate::json::Json, crate::api::Failure>,
)
    requires
        round.is_valid(),
        size > 0,
    ensures
        ({
            let next = super::round::round_after(round, sites, caches, size, reply).round;
            &&& round is States ==> title_requests_left(next, size) == title_requests_left(
                round,
                size,
            ) - 1
            &&& round is Links ==> sitelink_requests_left(next) == sitelink_requests_left(round)
                - 1
        }),
{
    let step = super::round::round_after(round, sites, caches, size, reply);
    match round {
        super::round::RoundView::States { calls, titles, at } => {
            let len = titles.len() as int;
            let known = match reply {
                Ok(resp) => super::caches::CachesView {
                    ja: caches.ja.union_prefer_right(
                        super::jawiki::states_in(resp, crate::batch::batch_of(titles, at, size)),
                    ),
                    unknown: caches.unknown,
                    links: caches.links,
                },
                Err(_) => caches,
            };
            crate::batch::a_batch_taken_leaves_one_less(at, size, len);
            crate::batch::batches_come_with_items(0, size);
            lemma_links_from(calls, titles.len(), sites, known, size);
        },
        super::round::RoundView::Links { pending, groups, group, at, counts } => {
            let len = groups[group].1.len() as int;
            let end = crate::batch::batch_end(at, super::wikidata::BATCH as int, len);
            crate::batch::a_batch_taken_leaves_one_less(at, super::wikidata::BATCH as int, len);
            lemma_links_on_requests(
                pending,
                groups,
                group,
                end,
                counts,
                sites,
                step.caches.links,
            );
        },
        _ => {},
    }
}

/// Once a round knows what to look up, it has as many requests to make as it
/// counts, as far as a machine word counts.
pub proof fn requests_are_counted_ahead(
    calls: Seq<(Seq<char>, super::parse::CallView)>,
    titles: nat,
    sites: Set<Seq<char>>,
    caches: super::caches::CachesView,
    size: int,
)
    ensures
        ({
            let round = super::round::links_from(calls, titles, sites, caches, size).round;
            match round {
                super::round::RoundView::Links { counts, .. } => counts.sitelink_requests
                    < usize::MAX ==> sitelink_requests_left(round) == counts.sitelink_requests,
                super::round::RoundView::Ended { counts, .. } => counts.sitelink_requests
                    < usize::MAX ==> sitelink_requests_left(round) == counts.sitelink_requests,
                _ => false,
            }
        }),
{
    let pending = super::scan::pending_of(calls, caches.ja);
    let groups = super::scan::groups_of(
        super::scan::wanted_of(super::scan::all_targets(pending), sites, caches.links),
    );
    let counts = super::round::Counts {
        calls: calls.len() as usize,
        titles: titles as usize,
        title_requests: crate::batch::batches_in(titles as int, size) as usize,
        sitelinks: super::round::titles_in(groups) as usize,
        sitelink_requests: super::round::requests_for(groups) as usize,
    };
    lemma_requests_for(groups);
    lemma_links_on_counts(pending, groups, 0, 0, counts, sites, caches.links);
    if groups.len() > 0 {
        lemma_links_on_requests(pending, groups, 0, 0, counts, sites, caches.links);
    }
}

/// What becomes of a round and of the lookup results when one reply after
/// another comes in.
pub open spec fn round_after_all(
    round: super::round::RoundView,
    sites: Set<Seq<char>>,
    caches: super::caches::CachesView,
    size: int,
    replies: Seq<Result<crate::json::Json, crate::api::Failure>>,
) -> (super::round::RoundView, super::caches::CachesView)
    decreases replies.len(),
{
    if replies.len() == 0 {
        (round, caches)
    } else {
        let step = super::round::round_after(round, sites, caches, size, replies[0]);
        round_after_all(step.round, sites, step.caches, size, replies.skip(1))
    }
}

/// The calls in the wikitext that replies give, in order. A failure gives none.
pub open spec fn calls_read(
    replies: Seq<Result<crate::json::Json, crate::api::Failure>>,
) -> Seq<(Seq<char>, super::parse::CallView)>
    decreases replies.len(),
{
    if replies.len() == 0 {
        seq![]
    } else {
        let later = calls_read(replies.skip(1));
        match replies[0] {
            Ok(resp) => super::scan::calls_of(
                resp.member("query"@).member("pages"@).elements(),
            ) + later,
            Err(_) => later,
        }
    }
}

proof fn lemma_stays_about(
    round: super::round::RoundView,
    calls: Seq<(Seq<char>, super::parse::CallView)>,
    sites: Set<Seq<char>>,
    caches: super::caches::CachesView,
    size: int,
    reply: Result<crate::json::Json, crate::api::Failure>,
)
    requires
        is_about(round, calls, sites, caches),
        size > 0,
    ensures
        ({
            let step = super::round::round_after(round, sites, caches, size, reply);
            is_about(step.round, calls, sites, step.caches)
        }),
{
    let step = super::round::round_after(round, sites, caches, size, reply);
    match round {
        super::round::RoundView::States { titles, at, .. } => {
            let known = match reply {
                Ok(resp) => super::caches::CachesView {
                    ja: caches.ja.union_prefer_right(
                        super::jawiki::states_in(resp, crate::batch::batch_of(titles, at, size)),
                    ),
                    unknown: caches.unknown,
                    links: caches.links,
                },
                Err(_) => caches,
            };
            lemma_links_from(calls, titles.len(), sites, known, size);
        },
        super::round::RoundView::Links { pending, groups, group, at, counts } => {
            let end = crate::batch::batch_end(
                at,
                super::wikidata::BATCH as int,
                groups[group].1.len() as int,
            );
            lemma_links_on(pending, groups, group, end, counts, sites, step.caches.links);
        },
        _ => {},
    }
}

proof fn lemma_stays_about_all(
    round: super::round::RoundView,
    calls: Seq<(Seq<char>, super::parse::CallView)>,
    sites: Set<Seq<char>>,
    caches: super::caches::CachesView,
    size: int,
    replies: Seq<Result<crate::json::Json, crate::api::Failure>>,
)
    requires
        is_about(round, calls, sites, caches),
        size > 0,
    ensures
        ({
            let (end, known) = round_after_all(round, sites, caches, size, replies);
            is_about(end, calls, sites, known)
        }),
    decreases replies.len(),
{
    if replies.len() > 0 {
        let step = super::round::round_after(round, sites, caches, size, replies[0]);
        lemma_stays_about(round, calls, sites, caches, size, replies[0]);
        lemma_stays_about_all(step.round, calls, sites, step.caches, size, replies.skip(1));
    }
}

proof fn lemma_reading(
    articles: Seq<(u64, Seq<char>)>,
    at: int,
    calls: Seq<(Seq<char>, super::parse::CallView)>,
    sites: Set<Seq<char>>,
    caches: super::caches::CachesView,
    size: int,
    contents: Seq<Result<crate::json::Json, crate::api::Failure>>,
    replies: Seq<Result<crate::json::Json, crate::api::Failure>>,
)
    requires
        0 <= at <= articles.len(),
        size > 0,
        contents.len() == crate::batch::batches_in(
            articles.len() - at,
            crate::api::CONTENT_BATCH as int,
        ),
    ensures
        ({
            let step = super::round::contents_on(articles, at, calls, sites, caches, size);
            let (end, known) = round_after_all(
                step.round,
                sites,
                step.caches,
                size,
                contents + replies,
            );
            is_about(end, calls + calls_read(contents), sites, known)
        }),
    decreases articles.len() - at,
{
    let len = articles.len() as int;
    let batch = crate::api::CONTENT_BATCH as int;
    let step = super::round::contents_on(articles, at, calls, sites, caches, size);
    crate::batch::batches_come_with_items(len - at, batch);
    if at < len {
        let end = crate::batch::batch_end(at, batch, len);
        let all = contents + replies;
        let more = match contents[0] {
            Ok(resp) => calls + super::scan::calls_of(
                resp.member("query"@).member("pages"@).elements(),
            ),
            Err(_) => calls,
        };
        crate::batch::a_batch_taken_leaves_one_less(at, batch, len);
        assert(all[0] == contents[0]);
        assert(all.skip(1) =~= contents.skip(1) + replies);
        lemma_reading(articles, end, more, sites, caches, size, contents.skip(1), replies);
        assert(more + calls_read(contents.skip(1)) =~= calls + calls_read(contents));
    } else {
        let titles = super::scan::titles_wanted(calls, caches.ja);
        assert(contents + replies =~= replies);
        assert(calls + calls_read(contents) =~= calls);
        lemma_links_from(calls, titles.len(), sites, caches, size);
        lemma_stays_about_all(step.round, calls, sites, step.caches, size, replies);
    }
}

/// A whole round, wherever it ends, ends with the findings of all calls that it
/// has read, by all that is known then: no call is forgotten, whatever the
/// replies.
pub proof fn a_whole_round_evaluates_what_it_read(
    articles: Seq<(u64, Seq<char>)>,
    sites: Set<Seq<char>>,
    caches: super::caches::CachesView,
    size: int,
    contents: Seq<Result<crate::json::Json, crate::api::Failure>>,
    replies: Seq<Result<crate::json::Json, crate::api::Failure>>,
)
    requires
        size > 0,
        contents.len() == crate::batch::batches_in(
            articles.len() as int,
            crate::api::CONTENT_BATCH as int,
        ),
    ensures
        ({
            let start = super::round::contents_on(articles, 0, seq![], sites, caches, size);
            let (end, known) = round_after_all(
                start.round,
                sites,
                start.caches,
                size,
                contents + replies,
            );
            match end {
                super::round::RoundView::Ended { found, .. } => found
                    == super::scan_laws::evaluated(
                    calls_read(contents),
                    known.ja,
                    sites,
                    known.links,
                ),
                _ => true,
            }
        }),
{
    lemma_reading(articles, 0, seq![], sites, caches, size, contents, replies);
    assert(Seq::<(Seq<char>, super::parse::CallView)>::empty() + calls_read(contents)
        =~= calls_read(contents));
}

} // verus!
