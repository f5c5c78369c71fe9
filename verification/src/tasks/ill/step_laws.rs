//! What each reply changes in a round, and what a round asks for.

use vstd::prelude::*;

use crate::api::Failure;
use crate::batch;
use crate::json::Json;
use crate::tasks::ill::caches::CachesView;
use crate::tasks::ill::jawiki;
use crate::tasks::ill::parse::CallView;
use crate::tasks::ill::round;
use crate::tasks::ill::round::{Channel, RoundView};
use crate::tasks::ill::scan;
use crate::tasks::ill::scan::{PendingView, ScanStep};

verus! {

/// Whether a sequence of rounds takes articles from `at` on to the last one, five
/// hundred at a time and each once.
pub open spec fn rounds_cover(articles: usize, at: usize, rounds: Seq<(usize, usize)>) -> bool
    decreases rounds.len(),
{
    if rounds.len() == 0 {
        at == articles
    } else {
        &&& rounds[0].0 == at
        &&& at < rounds[0].1 <= articles
        &&& rounds[0].1 == at + 500 || (rounds[0].1 == articles && articles - at < 500)
        &&& rounds_cover(articles, rounds[0].1, rounds.skip(1))
    }
}

/// Without a shutdown a scan takes all articles in rounds, and then reports.
pub proof fn a_scan_covers_all_articles(
    articles: usize,
    at: usize,
    dry_run: bool,
) -> (rounds: Seq<(usize, usize)>)
    requires
        at <= articles,
    ensures
        rounds_cover(articles, at, rounds),
        rounds.len() > 0 ==> scan::step_after(articles, at, dry_run, false) == ScanStep::Round(
            rounds[0].0,
            rounds[0].1,
        ),
        forall|i: int|
            0 <= i < rounds.len() ==> scan::step_after(
                articles,
                (#[trigger] rounds[i]).1,
                dry_run,
                false,
            ) == if i + 1 < rounds.len() {
                ScanStep::Round(rounds[i + 1].0, rounds[i + 1].1)
            } else if dry_run {
                ScanStep::Print
            } else {
                ScanStep::Save
            },
    decreases articles - at,
{
    if at == articles {
        Seq::empty()
    } else {
        let to = batch::batch_end(at as int, 500, articles as int) as usize;
        let rest = a_scan_covers_all_articles(articles, to, dry_run);
        let rounds = seq![(at, to)] + rest;
        assert(rounds.skip(1) =~= rest);
        assert forall|i: int| 0 <= i < rounds.len() implies scan::step_after(
            articles,
            (#[trigger] rounds[i]).1,
            dry_run,
            false,
        ) == if i + 1 < rounds.len() {
            ScanStep::Round(rounds[i + 1].0, rounds[i + 1].1)
        } else if dry_run {
            ScanStep::Print
        } else {
            ScanStep::Save
        } by {
            if i > 0 {
                assert(rounds[i] == rest[i - 1]);
                if i + 1 < rounds.len() {
                    assert(rounds[i + 1] == rest[i]);
                }
            } else if rest.len() > 0 {
                assert(rounds[1] == rest[0]);
            }
        }
        rounds
    }
}

/// A shutdown stops a scan before its next round, without a report. One that has
/// taken all its articles reports as ever.
pub proof fn shutdown_stops_a_scan(articles: usize, at: usize, dry_run: bool)
    requires
        at <= articles,
    ensures
        at < articles || articles == 0 ==> scan::step_after(articles, at, dry_run, true)
            == ScanStep::Stop,
        at == articles && articles > 0 ==> scan::step_after(articles, at, dry_run, true)
            == scan::step_after(articles, at, dry_run, false),
        scan::step_after(articles, at, dry_run, false) != ScanStep::Stop,
{
}

/// A reply on the states of titles makes known the state of each title in its
/// batch, and of no other.
pub proof fn replies_tell_the_states_of_a_batch(
    calls: Seq<(Seq<char>, CallView)>,
    titles: Seq<Seq<char>>,
    at: int,
    sites: Set<Seq<char>>,
    caches: CachesView,
    size: int,
    resp: Json,
    title: Seq<char>,
)
    requires
        0 <= at < titles.len(),
        size > 0,
    ensures
        ({
            let asked = RoundView::States { calls, titles, at };
            let known = round::round_after(asked, sites, caches, size, Ok(resp)).caches;
            let part = batch::batch_of(titles, at, size);
            &&& known.ja.contains_key(title) == (part.contains(title) || caches.ja.contains_key(
                title,
            ))
            &&& part.contains(title) ==> known.ja[title] == jawiki::state_in(resp, title)
            &&& !part.contains(title) && caches.ja.contains_key(title) ==> known.ja[title]
                == caches.ja[title]
            &&& known.links == caches.links
        }),
{
}

/// A failure makes nothing known.
pub proof fn failures_make_nothing_known(
    asked: RoundView,
    sites: Set<Seq<char>>,
    caches: CachesView,
    size: int,
    failure: Failure,
)
    ensures
        ({
            let known = round::round_after(asked, sites, caches, size, Err(failure)).caches;
            known.ja == caches.ja && known.links == caches.links
        }),
{
}

/// A reply on counterparts makes known where each title in its batch leads, if
/// anywhere, and of no other.
pub proof fn replies_tell_the_counterparts_of_a_batch(
    pending: Seq<PendingView>,
    groups: Seq<(Seq<char>, Seq<Seq<char>>)>,
    group: int,
    at: int,
    counts: round::Counts,
    sites: Set<Seq<char>>,
    caches: CachesView,
    size: int,
    resp: Json,
    key: (Seq<char>, Seq<char>),
)
    requires
        0 <= group < groups.len(),
        0 <= at < groups[group].1.len(),
    ensures
        ({
            let asked = RoundView::Links { pending, groups, group, at, counts };
            let known = round::round_after(asked, sites, caches, size, Ok(resp)).caches;
            let site = groups[group].0;
            let part = batch::batch_of(groups[group].1, at, 50);
            let found = scan::sitelinks_in(site, resp);
            &&& known.ja == caches.ja
            &&& key.0 == site && part.contains(key.1) ==> known.links.contains_key(key)
                && known.links[key] == (if found.contains_key(key.1) {
                Some(found[key.1])
            } else {
                None
            })
            &&& !(key.0 == site && part.contains(key.1)) ==> known.links.contains_key(key)
                == caches.links.contains_key(key)
            &&& !(key.0 == site && part.contains(key.1)) && caches.links.contains_key(key)
                ==> known.links[key] == caches.links[key]
        }),
{
    let site = groups[group].0;
    let part = batch::batch_of(groups[group].1, at, 50);
    crate::tasks::ill::caches::answers_are_remembered(
        caches.links,
        site,
        part,
        scan::sitelinks_in(site, resp),
        key,
    );
}

/// A round goes on with the titles behind the batch that was answered, answered or
/// not, until none is left.
pub proof fn rounds_go_on_behind_the_batch(
    calls: Seq<(Seq<char>, CallView)>,
    titles: Seq<Seq<char>>,
    at: int,
    sites: Set<Seq<char>>,
    caches: CachesView,
    size: int,
    reply: Result<Json, Failure>,
)
    requires
        0 <= at < titles.len(),
        size > 0,
    ensures
        ({
            let asked = RoundView::States { calls, titles, at };
            let next = round::round_after(asked, sites, caches, size, reply);
            &&& at + size < titles.len() ==> next.round == (RoundView::States {
                calls,
                titles,
                at: at + size,
            }) && next.unknown.len() == 0
            &&& at + size >= titles.len() ==> next == round::links_from(
                calls,
                titles.len(),
                sites,
                CachesView {
                    ja: next.caches.ja,
                    unknown: caches.unknown,
                    links: caches.links,
                },
                size,
            )
        }),
{
}

/// What a round asks for: the texts of fifty articles at a time, the states of
/// titles by the size it was given, and the counterparts of fifty titles of one
/// site at a time.
pub proof fn requests_of_a_round(asked: RoundView, size: int)
    ensures
        round::round_params(asked, size) == (match asked {
            RoundView::Contents { articles, at, .. } => Some(
                (
                    Channel::Content,
                    crate::api::page_contents_params(
                        round::ids_of(batch::batch_of(articles, at, 50)),
                    ),
                ),
            ),
            RoundView::States { titles, at, .. } => Some(
                (
                    Channel::State,
                    jawiki::page_states_params(batch::batch_of(titles, at, size)),
                ),
            ),
            RoundView::Links { groups, group, at, .. } => Some(
                (
                    Channel::Sitelink,
                    scan::sitelinks_params(
                        groups[group].0,
                        batch::batch_of(groups[group].1, at, 50),
                    ),
                ),
            ),
            RoundView::Ended { .. } => None,
        }),
{
}

/// Articles give their numbers one by one.
pub proof fn articles_give_their_numbers(articles: Seq<(u64, Seq<char>)>, i: int)
    requires
        0 <= i < articles.len(),
    ensures
        round::ids_of(articles).len() == articles.len(),
        round::ids_of(articles)[i] == articles[i].0,
{
}

/// The counts of a round: its calls, the titles looked up and the requests that
/// took, and the counterparts to look up and the requests that takes.
pub proof fn rounds_count_what_they_look_up(
    calls: Seq<(Seq<char>, CallView)>,
    titles: nat,
    sites: Set<Seq<char>>,
    caches: CachesView,
    size: int,
)
    requires
        size > 0,
        calls.len() <= usize::MAX,
        titles <= usize::MAX,
        batch::batches_in(titles as int, size) <= usize::MAX,
    ensures
        ({
            let groups = scan::groups_of(
                scan::wanted_of(
                    scan::all_targets(scan::pending_of(calls, caches.ja)),
                    sites,
                    caches.links,
                ),
            );
            let next = round::links_from(calls, titles, sites, caches, size).round;
            let counts = if next is Links {
                next->Links_counts
            } else {
                next->Ended_counts
            };
            &&& next is Links || next is Ended
            &&& counts.calls == calls.len()
            &&& counts.titles == titles
            &&& counts.title_requests == batch::batches_in(titles as int, size)
            &&& counts.sitelinks == round::titles_in(groups)
            &&& counts.sitelink_requests == round::requests_for(groups)
        }),
{
    let pending = scan::pending_of(calls, caches.ja);
    let groups = scan::groups_of(
        scan::wanted_of(scan::all_targets(pending), sites, caches.links),
    );
    batch::batches_come_with_items(titles as int, size);
    lemma_sums_fit(groups);
    lemma_counts_stay(
        pending,
        groups,
        0,
        0,
        round::Counts {
            calls: calls.len() as usize,
            titles: titles as usize,
            title_requests: batch::batches_in(titles as int, size) as usize,
            sitelinks: round::titles_in(groups) as usize,
            sitelink_requests: round::requests_for(groups) as usize,
        },
        sites,
        caches.links,
    );
}

proof fn lemma_sums_fit(groups: Seq<(Seq<char>, Seq<Seq<char>>)>)
    ensures
        round::titles_in(groups) <= usize::MAX,
        round::requests_for(groups) <= usize::MAX,
{
}

proof fn lemma_counts_stay(
    pending: Seq<PendingView>,
    groups: Seq<(Seq<char>, Seq<Seq<char>>)>,
    group: int,
    at: int,
    counts: round::Counts,
    sites: Set<Seq<char>>,
    links: Map<(Seq<char>, Seq<char>), Option<Seq<char>>>,
)
    ensures
        match round::links_on(pending, groups, group, at, counts, sites, links) {
            RoundView::Links { counts: held, .. } => held == counts,
            RoundView::Ended { counts: held, .. } => held == counts,
            _ => false,
        },
    decreases groups.len() - group,
{
    if group < groups.len() && at >= groups[group].1.len() {
        lemma_counts_stay(pending, groups, group + 1, 0, counts, sites, links);
    }
}

/// Groups are counted one by one, by their titles and by the requests of fifty
/// titles that it takes, up to the greatest number there is.
pub proof fn groups_are_counted_one_by_one(
    groups: Seq<(Seq<char>, Seq<Seq<char>>)>,
    group: (Seq<char>, Seq<Seq<char>>),
)
    ensures
        ({
            let titles = round::titles_in(groups) + group.1.len();
            let requests = round::requests_for(groups) + batch::batches_in(
                group.1.len() as int,
                50,
            );
            &&& round::titles_in(seq![]) == 0
            &&& round::requests_for(seq![]) == 0
            &&& titles <= usize::MAX ==> round::titles_in(groups.push(group)) == titles
            &&& titles > usize::MAX ==> round::titles_in(groups.push(group)) == usize::MAX
            &&& requests <= usize::MAX ==> round::requests_for(groups.push(group)) == requests
            &&& requests > usize::MAX ==> round::requests_for(groups.push(group)) == usize::MAX
        }),
{
    assert(groups.push(group).drop_last() =~= groups);
    batch::batches_come_with_items(group.1.len() as int, 50);
}

/// Languages without a site are remembered, and told where they had not been.
pub proof fn unknown_languages_are_told_once(
    calls: Seq<(Seq<char>, CallView)>,
    titles: nat,
    sites: Set<Seq<char>>,
    caches: CachesView,
    size: int,
    lang: Seq<char>,
)
    ensures
        ({
            let step = round::links_from(calls, titles, sites, caches, size);
            let unknown = scan::unknown_of(
                scan::all_targets(scan::pending_of(calls, caches.ja)),
                sites,
            );
            &&& step.unknown.contains(lang) == (unknown.contains(lang) && !caches.unknown.contains(
                lang,
            ))
            &&& step.caches.unknown.contains(lang) == (unknown.contains(lang)
                || caches.unknown.contains(lang))
        }),
{
    let unknown = scan::unknown_of(scan::all_targets(scan::pending_of(calls, caches.ja)), sites);
    let once = crate::titles::unique_of(unknown);
    let fresh = |lang: Seq<char>| !caches.unknown.contains(lang);
    crate::titles::unique_keeps_every_value(unknown, lang);
    assert(unknown.to_set().contains(lang) == unknown.contains(lang));
    crate::tasks::ill::scan_laws::lemma_filter_contains(once, fresh, lang);
}

} // verus!
