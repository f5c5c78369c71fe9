//! The scan itself: which articles to read, what to look up for the calls in
//! them, and which calls to report.

use vstd::prelude::*;

use super::caches::Caches;
use super::jawiki::PageState;
use super::parse::{find_calls, IllCall, LangTarget};
use super::report::{Finding, REPORT_LIMIT};
use super::wikidata::{
    ja_titles_for_ids_request, ja_titles_for_site_request, normalize_title, Wikidata, WIKIDATA_LANG,
};
use crate::api::{page_content, MAIN_NAMESPACE};
use crate::batch::end_of_batch;
use crate::json::Json;
use crate::number::{decimal_text, parse};
use crate::request::{build_params, push_param, Params};
use crate::text::{equal_ignoring_case, same, to_chars};
use crate::titles::{unique, TitleTable};

verus! {

/// How many titles to look up per `prop=info` request with the
/// `apihighlimits` right.
pub const HIGH_INFO_BATCH: usize = 500;

/// How many titles to look up per `prop=info` request without the
/// `apihighlimits` right.
pub const LOW_INFO_BATCH: usize = 50;

/// The template whose transclusions are scanned.
pub const ILL_TEMPLATE: &'static str = "Template:仮リンク";

/// How many articles to resolve in one round. Larger rounds fill the lookup
/// batches better; smaller ones keep memory down and progress steady.
pub const SCAN_CHUNK: usize = 500;

/// How many titles to look up per `prop=info` request.
pub fn info_batch(high_limits: bool) -> (batch: usize)
    ensures
        batch == (if high_limits {
            HIGH_INFO_BATCH
        } else {
            LOW_INFO_BATCH
        }),
{
    if high_limits {
        HIGH_INFO_BATCH
    } else {
        LOW_INFO_BATCH
    }
}

/// The number of articles named by a setting, or no limit where it names none.
pub open spec fn limit_of(value: Option<Seq<char>>) -> nat {
    match value {
        Some(text) => match crate::number::parsed(text, usize::MAX as nat) {
            Some(n) => n,
            None => usize::MAX as nat,
        },
        None => usize::MAX as nat,
    }
}

/// Parse an article limit override, falling back to no limit.
pub fn page_limit_from(value: Option<String>) -> (limit: usize)
    ensures
        limit == limit_of(crate::text::optional_text(value)),
{
    match value {
        Some(text) => match parse(text.as_str(), usize::MAX as u64) {
            Some(n) => n as usize,
            None => usize::MAX,
        },
        None => usize::MAX,
    }
}

/// The articles listed so far, each a page id and a title.
pub struct Articles {
    /// How many articles are wanted.
    pub limit: usize,
    /// The articles, in the order in which they were listed.
    pub articles: Vec<(u64, String)>,
}

/// The ids and titles of articles.
pub open spec fn article_views(articles: Seq<(u64, String)>) -> Seq<(u64, Seq<char>)> {
    articles.map_values(|article: (u64, String)| (article.0, article.1@))
}

/// The article that an item of the transclusion list names.
pub open spec fn article_of(item: Json) -> Option<(u64, Seq<char>)> {
    match (item.member("pageid"@).unsigned(), item.member("title"@).text()) {
        (Some(pageid), Some(title)) => Some((pageid, title)),
        _ => None,
    }
}

/// The articles that items of the transclusion list name, in order.
pub open spec fn articles_of(items: Seq<Json>) -> Seq<(u64, Seq<char>)> {
    items.filter_map(|item: Json| article_of(item))
}

/// The parameters of a question for the articles that transclude
/// [`ILL_TEMPLATE`], from where an earlier response left off.
pub open spec fn articles_params(resume: Option<Seq<char>>) -> Seq<(Seq<char>, Seq<char>)> {
    let base = seq![
        ("action"@, "query"@),
        ("list"@, "embeddedin"@),
        ("eititle"@, "Template:仮リンク"@),
        ("einamespace"@, crate::number::decimal(MAIN_NAMESPACE as nat)),
        ("eifilterredir"@, "nonredirects"@),
        ("eilimit"@, "max"@),
        ("formatversion"@, "2"@),
    ];
    match resume {
        Some(value) => base.push(("eicontinue"@, value)),
        None => base,
    }
}

/// Request the main-namespace articles that transclude [`ILL_TEMPLATE`], from
/// where an earlier response left off. Redirect pages are excluded.
pub fn articles_request(resume: Option<String>) -> (params: Params)
    ensures
        crate::request::param_views(params@) == articles_params(
            crate::text::optional_text(resume),
        ),
{
    let namespace = decimal_text(MAIN_NAMESPACE);
    let mut params = build_params(
        &[
            ("action", "query"),
            ("list", "embeddedin"),
            ("eititle", ILL_TEMPLATE),
            ("einamespace", namespace.as_str()),
            ("eifilterredir", "nonredirects"),
            ("eilimit", "max"),
            ("formatversion", "2"),
        ],
    );
    if let Some(value) = resume {
        push_param(&mut params, "eicontinue", value.as_str());
    }
    params
}

impl Articles {
    /// Whether no more than the wanted articles are held.
    pub open spec fn is_valid(self) -> bool {
        self.articles@.len() <= self.limit
    }

    /// No articles yet.
    pub fn new(limit: usize) -> (articles: Self)
        ensures
            articles.limit == limit,
            articles.articles@.len() == 0,
            articles.is_valid(),
    {
        Articles { limit, articles: Vec::new() }
    }

    /// Whether more articles are wanted.
    pub fn is_open(&self) -> (yes: bool)
        ensures
            yes == (self.articles@.len() < self.limit),
    {
        self.articles.len() < self.limit
    }

    /// Add the articles of a response, as many as are still wanted, and say
    /// from where to list on. The list is capped by the limit, and ends where
    /// the API has no more.
    pub fn add_page(&mut self, resp: &Json) -> (resume: Option<String>)
        requires
            old(self).is_valid(),
        ensures
            ({
                let listed = articles_of(resp.member("query"@).member("embeddedin"@).elements());
                let room = old(self).limit - old(self).articles@.len();
                let full = listed.len() >= room;
                let onward = resp.member("continue"@).member("eicontinue"@).text();
                &&& final(self).limit == old(self).limit
                &&& final(self).is_valid()
                &&& article_views(final(self).articles@) == article_views(old(self).articles@) + (
                if full {
                    listed.take(room)
                } else {
                    listed
                })
                &&& crate::text::optional_text(resume) == (if full {
                    None
                } else {
                    onward
                })
            }),
    {
        let items = resp.get("query").get("embeddedin").items();
        let ghost held = article_views(self.articles@);
        let ghost listed = articles_of(items@);
        let ghost room = self.limit - self.articles@.len();
        let mut i: usize = 0;
        assert(held + articles_of(items@.take(0)) =~= held);
        while i < items.len() && self.articles.len() < self.limit
            invariant
                i <= items@.len(),
                items@ == resp.member("query"@).member("embeddedin"@).elements(),
                listed == articles_of(items@),
                self.limit == old(self).limit,
                self.is_valid(),
                held == article_views(old(self).articles@),
                room == old(self).limit - old(self).articles@.len(),
                article_views(self.articles@) == held + articles_of(items@.take(i as int)),
            decreases items@.len() - i,
        {
            proof {
                items@.lemma_filter_map_take_succ(|item: Json| article_of(item), i as int);
            }
            let ghost before = self.articles@;
            if let (Some(pageid), Some(title)) = (
                items[i].get("pageid").as_u64(),
                items[i].get("title").as_str(),
            ) {
                let title: String = title.to_owned();
                self.articles.push((pageid, title));
                assert(article_views(self.articles@) =~= article_views(before).push(
                    (pageid, title@),
                ));
                assert(article_views(self.articles@) =~= held + articles_of(items@.take(i + 1)));
            }
            i += 1;
        }
        proof {
            lemma_filter_map_prefix(items@, |item: Json| article_of(item), i as int);
            assert(article_views(self.articles@).len() == self.articles@.len());
            assert(held.len() == old(self).articles@.len());
            if self.articles@.len() < self.limit {
                assert(items@.take(i as int) =~= items@);
            } else {
                assert(articles_of(items@.take(i as int)) =~= listed.take(room));
            }
        }
        if self.articles.len() >= self.limit {
            return None;
        }
        match resp.get("continue").get("eicontinue").as_str() {
            Some(value) => Some(value.to_owned()),
            None => None,
        }
    }
}

/// What to do next in a scan.
#[derive(Debug, Clone, Copy, PartialEq, Eq, Structural)]
pub enum ScanStep {
    /// Run a round over the articles from the first index up to the second.
    Round(usize, usize),
    /// Stop without saving.
    Stop,
    /// Print the report.
    Print,
    /// Save the report.
    Save,
}

/// What follows when `at` of the articles are scanned.
pub open spec fn step_after(articles: usize, at: usize, dry_run: bool, shutdown: bool) -> ScanStep {
    if at == articles && articles > 0 {
        if dry_run {
            ScanStep::Print
        } else {
            ScanStep::Save
        }
    } else if shutdown {
        ScanStep::Stop
    } else if at < articles {
        ScanStep::Round(
            at,
            crate::batch::batch_end(at as int, SCAN_CHUNK as int, articles as int) as usize,
        )
    } else if dry_run {
        ScanStep::Print
    } else {
        ScanStep::Save
    }
}

/// Decide what to do next when `at` of the articles are scanned.
///
/// The scan is long-running, so shutdown is looked at before each round and
/// stops it without saving. Once all articles are scanned the report is due,
/// shutdown or not; where a shutdown came before any article was listed there
/// is nothing to report. A dry run prints the report in place of saving it.
pub fn next_step(articles: usize, at: usize, dry_run: bool, shutdown: bool) -> (step: ScanStep)
    requires
        at <= articles,
    ensures
        step == (if shutdown && (at < articles || articles == 0) {
            ScanStep::Stop
        } else if at < articles {
            ScanStep::Round(
                at,
                crate::batch::batch_end(
                    at as int,
                    SCAN_CHUNK as int,
                    articles as int,
                ) as usize,
            )
        } else if dry_run {
            ScanStep::Print
        } else {
            ScanStep::Save
        }),
        step == step_after(articles, at, dry_run, shutdown),
        match step {
            ScanStep::Round(from, to) => from == at && at < to <= articles,
            _ => true,
        },
{
    if shutdown && (at < articles || articles == 0) {
        ScanStep::Stop
    } else if at < articles {
        ScanStep::Round(at, end_of_batch(at, SCAN_CHUNK, articles))
    } else if dry_run {
        ScanStep::Print
    } else {
        ScanStep::Save
    }
}

/// What a filter makes of the front of a sequence is the front of what it makes
/// of the whole.
pub proof fn lemma_filter_map_prefix<A, B>(s: Seq<A>, f: spec_fn(A) -> Option<B>, n: int)
    requires
        0 <= n <= s.len(),
    ensures
        s.take(n).filter_map(f).len() <= s.filter_map(f).len(),
        s.take(n).filter_map(f) == s.filter_map(f).take(s.take(n).filter_map(f).len() as int),
    decreases s.len() - n,
{
    if n < s.len() {
        lemma_filter_map_prefix(s, f, n + 1);
        s.lemma_filter_map_take_succ(f, n);
        let part = s.take(n).filter_map(f);
        let more = s.take(n + 1).filter_map(f);
        assert(part =~= more.take(part.len() as int));
        assert(part =~= s.filter_map(f).take(part.len() as int));
    } else {
        assert(s.take(n) =~= s);
        assert(s.filter_map(f).take(s.filter_map(f).len() as int) =~= s.filter_map(f));
    }
}

/// The titles and calls of articles.
pub open spec fn found_views(calls: Seq<(String, IllCall)>) -> Seq<
    (Seq<char>, super::parse::CallView),
> {
    calls.map_values(|found: (String, IllCall)| (found.0@, found.1@))
}

/// The calls, each with the title of its article.
pub open spec fn titled(
    title: Seq<char>,
    calls: Seq<super::parse::CallView>,
) -> Seq<(Seq<char>, super::parse::CallView)> {
    calls.map_values(|call: super::parse::CallView| (title, call))
}

/// The calls in the pages of a response, each with the title of its article.
pub open spec fn calls_of(pages: Seq<Json>) -> Seq<(Seq<char>, super::parse::CallView)>
    decreases pages.len(),
{
    if pages.len() == 0 {
        seq![]
    } else {
        let before = calls_of(pages.drop_last());
        match pages.last().member("title"@).text() {
            Some(title) => before + titled(
                title,
                super::parse::calls_in(crate::api::content_of(pages.last())),
            ),
            None => before,
        }
    }
}

fn add_calls(found: &mut Vec<(String, IllCall)>, title: &str, calls: Vec<IllCall>)
    ensures
        found_views(final(found)@) == found_views(old(found)@) + titled(
            title@,
            super::parse::call_views(calls@),
        ),
{
    let ghost all = titled(title@, super::parse::call_views(calls@));
    let ghost start = found_views(found@);
    let mut i: usize = 0;
    assert(found_views(found@) =~= start + all.take(0));
    while i < calls.len()
        invariant
            i <= calls@.len(),
            all == titled(title@, super::parse::call_views(calls@)),
            found_views(found@) == start + all.take(i as int),
        decreases calls@.len() - i,
    {
        let ghost before = found@;
        let name: String = title.to_owned();
        let call = calls[i].clone();
        found.push((name, call));
        i += 1;
        assert(found_views(found@) =~= found_views(before).push((name@, call@)));
        assert(all.take(i as int) =~= all.take(i - 1).push((name@, call@)));
        assert(found_views(found@) =~= start + all.take(i as int));
    }
    assert(all.take(i as int) =~= all);
}

/// Read the interlanguage-link calls of a batch of articles.
pub fn fetched_calls(resp: &Json) -> (calls: Vec<(String, IllCall)>)
    ensures
        found_views(calls@) == calls_of(resp.member("query"@).member("pages"@).elements()),
{
    let pages = resp.get("query").get("pages").items();
    let mut calls: Vec<(String, IllCall)> = Vec::new();
    let mut i: usize = 0;
    assert(found_views(calls@) =~= calls_of(pages@.take(0)));
    while i < pages.len()
        invariant
            i <= pages@.len(),
            found_views(calls@) == calls_of(pages@.take(i as int)),
        decreases pages@.len() - i,
    {
        assert(pages@.take(i + 1).drop_last() =~= pages@.take(i as int));
        if let Some(title) = pages[i].get("title").as_str() {
            let content = page_content(&pages[i]);
            add_calls(&mut calls, title, find_calls(content.as_str()));
        }
        i += 1;
    }
    assert(pages@.take(i as int) =~= pages@);
    calls
}

/// The Japanese article names of calls.
pub open spec fn ja_titles(calls: Seq<(Seq<char>, super::parse::CallView)>) -> Seq<Seq<char>> {
    calls.map_values(|found: (Seq<char>, super::parse::CallView)| found.1.ja_title)
}

/// The Japanese article names whose state is not known yet, each once.
pub open spec fn titles_wanted(
    calls: Seq<(Seq<char>, super::parse::CallView)>,
    ja: Map<Seq<char>, super::jawiki::StateView>,
) -> Seq<Seq<char>> {
    crate::titles::unique_of(ja_titles(calls)).filter(|title: Seq<char>| !ja.contains_key(title))
}

/// Say which Japanese article names to look up for a round of calls.
pub fn titles_to_look_up(calls: &[(String, IllCall)], caches: &Caches) -> (titles: Vec<String>)
    ensures
        crate::text::texts(titles@) == titles_wanted(found_views(calls@), caches.ja@),
{
    let mut names: Vec<String> = Vec::new();
    let ghost all = ja_titles(found_views(calls@));
    let mut i: usize = 0;
    assert(crate::text::texts(names@) =~= all.take(0));
    while i < calls.len()
        invariant
            i <= calls@.len(),
            all == ja_titles(found_views(calls@)),
            crate::text::texts(names@) == all.take(i as int),
        decreases calls@.len() - i,
    {
        let ghost before = names@;
        let name: String = calls[i].1.ja_title.clone();
        names.push(name);
        i += 1;
        assert(crate::text::texts(names@) =~= crate::text::texts(before).push(name@));
        assert(all.take(i as int) =~= all.take(i - 1).push(name@));
    }
    assert(all.take(i as int) =~= all);
    let distinct = unique(names.as_slice());
    let ghost once = crate::text::texts(distinct@);
    let ghost fresh = |title: Seq<char>| !caches.ja@.contains_key(title);
    let mut titles: Vec<String> = Vec::new();
    let mut k: usize = 0;
    proof {
        reveal(Seq::filter);
        assert(crate::text::texts(titles@) =~= once.take(0).filter(fresh));
    }
    while k < distinct.len()
        invariant
            k <= distinct@.len(),
            once == crate::text::texts(distinct@),
            fresh == (|title: Seq<char>| !caches.ja@.contains_key(title)),
            crate::text::texts(titles@) == once.take(k as int).filter(fresh),
        decreases distinct@.len() - k,
    {
        proof {
            reveal(Seq::filter);
            assert(once.take(k + 1).drop_last() =~= once.take(k as int));
        }
        let ghost before = titles@;
        if !caches.ja.contains_key(distinct[k].as_str()) {
            let title: String = distinct[k].clone();
            titles.push(title);
            assert(crate::text::texts(titles@) =~= crate::text::texts(before).push(title@));
        }
        k += 1;
    }
    assert(once.take(k as int) =~= once);
    titles
}

/// A call whose Japanese article name is missing or a redirect.
#[derive(Debug, PartialEq, Eq)]
pub struct Pending {
    /// Article containing the call.
    pub article: String,
    /// The call.
    pub call: IllCall,
    /// State of the Japanese article name.
    pub state: PageState,
}

/// The contents of a [`Pending`].
#[verifier::ext_equal]
pub struct PendingView {
    pub article: Seq<char>,
    pub call: super::parse::CallView,
    pub state: super::jawiki::StateView,
}

impl View for Pending {
    type V = PendingView;

    open spec fn view(&self) -> PendingView {
        PendingView { article: self.article@, call: self.call@, state: self.state@ }
    }
}

/// The contents of a sequence of pending calls.
pub open spec fn pending_views(pending: Seq<Pending>) -> Seq<PendingView> {
    pending.map_values(|p: Pending| p@)
}

/// A call with the state of its Japanese article name, unless that is unknown
/// or an article.
pub open spec fn pending_call(
    found: (Seq<char>, super::parse::CallView),
    ja: Map<Seq<char>, super::jawiki::StateView>,
) -> Option<PendingView> {
    if ja.contains_key(found.1.ja_title) && ja[found.1.ja_title] !is Exists {
        Some(PendingView { article: found.0, call: found.1, state: ja[found.1.ja_title] })
    } else {
        None
    }
}

/// The calls whose Japanese article names are missing or redirects, in order.
pub open spec fn pending_of(
    calls: Seq<(Seq<char>, super::parse::CallView)>,
    ja: Map<Seq<char>, super::jawiki::StateView>,
) -> Seq<PendingView> {
    calls.filter_map(|found: (Seq<char>, super::parse::CallView)| pending_call(found, ja))
}

/// Drop the calls that already point at an article, and those whose lookup
/// failed.
pub fn pending_calls(calls: &[(String, IllCall)], caches: &Caches) -> (pending: Vec<Pending>)
    ensures
        pending_views(pending@) == pending_of(found_views(calls@), caches.ja@),
{
    let ghost all = found_views(calls@);
    let mut pending: Vec<Pending> = Vec::new();
    let mut i: usize = 0;
    assert(pending_views(pending@) =~= pending_of(all.take(0), caches.ja@));
    while i < calls.len()
        invariant
            i <= calls@.len(),
            all == found_views(calls@),
            pending_views(pending@) == pending_of(all.take(i as int), caches.ja@),
        decreases calls@.len() - i,
    {
        proof {
            all.lemma_filter_map_take_succ(
                |found: (Seq<char>, super::parse::CallView)| pending_call(found, caches.ja@),
                i as int,
            );
        }
        let ghost before = pending@;
        if let Some(state) = caches.ja.get(calls[i].1.ja_title.as_str()) {
            let open: bool = match state {
                PageState::Missing | PageState::Redirect(_) => true,
                PageState::Exists => false,
            };
            if open {
                let p = Pending {
                    article: calls[i].0.clone(),
                    call: calls[i].1.clone(),
                    state: state.clone(),
                };
                pending.push(p);
                assert(pending_views(pending@) =~= pending_views(before).push(p@));
            }
        }
        i += 1;
    }
    assert(all.take(i as int) =~= all);
    pending
}

/// Where to look up the counterpart of an article in a language: on Wikidata
/// itself, or on the Wikipedia of that language if Wikidata knows it.
pub open spec fn target_site(sites: Set<Seq<char>>, lang: Seq<char>) -> Option<Seq<char>> {
    if crate::text::same_ignoring_case(lang, "wikidata"@) {
        Some("wikidata"@)
    } else if sites.contains(super::wikidata::site_of(lang)) {
        Some(super::wikidata::site_of(lang))
    } else {
        None
    }
}

/// The site and the normalised title under which a target is looked up.
pub open spec fn target_key(
    sites: Set<Seq<char>>,
    target: super::parse::TargetView,
) -> Option<(Seq<char>, Seq<char>)> {
    match target_site(sites, target.lang) {
        Some(site) => Some((site, super::wikidata::normalized(target.title))),
        None => None,
    }
}

fn known_site(wikidata: &Wikidata, lang: &str) -> (site: Option<String>)
    ensures
        crate::text::optional_text(site) == target_site(wikidata.sites@, lang@),
{
    if equal_ignoring_case(to_chars(lang).as_slice(), to_chars(WIKIDATA_LANG).as_slice()) {
        return Some(WIKIDATA_LANG.to_owned());
    }
    wikidata.site_for(lang)
}

/// Resolve a language code to a Wikidata site, saying whether to warn of the
/// code. That happens once per unknown code.
pub fn site_for(wikidata: &Wikidata, caches: &mut Caches, lang: &str) -> (found: (
    Option<String>,
    bool,
))
    ensures
        crate::text::optional_text(found.0) == target_site(wikidata.sites@, lang@),
        found.1 == (found.0 is None && !old(caches).unknown_langs@.contains(lang@)),
        final(caches).ja@ == old(caches).ja@,
        final(caches).sitelinks@ == old(caches).sitelinks@,
        final(caches).unknown_langs@ == (if found.0 is None {
            old(caches).unknown_langs@.insert(lang@)
        } else {
            old(caches).unknown_langs@
        }),
{
    let site = known_site(wikidata, lang);
    let mut warn: bool = false;
    if site.is_none() {
        warn = caches.unknown_langs.insert(lang.to_owned());
    }
    (site, warn)
}

/// The language targets of all calls, in order.
pub open spec fn all_targets(pending: Seq<PendingView>) -> Seq<super::parse::TargetView>
    decreases pending.len(),
{
    if pending.len() == 0 {
        seq![]
    } else {
        all_targets(pending.drop_last()) + pending.last().call.targets
    }
}

fn targets_of(pending: &[Pending]) -> (targets: Vec<LangTarget>)
    ensures
        super::parse::target_views(targets@) == all_targets(pending_views(pending@)),
{
    let ghost views = pending_views(pending@);
    let mut targets: Vec<LangTarget> = Vec::new();
    let mut i: usize = 0;
    assert(super::parse::target_views(targets@) =~= all_targets(views.take(0)));
    while i < pending.len()
        invariant
            i <= pending@.len(),
            views == pending_views(pending@),
            super::parse::target_views(targets@) == all_targets(views.take(i as int)),
        decreases pending@.len() - i,
    {
        let own = &pending[i].call.targets;
        let ghost start = super::parse::target_views(targets@);
        let ghost added = super::parse::target_views(own@);
        let mut k: usize = 0;
        assert(start + added.take(0) =~= start);
        while k < own.len()
            invariant
                k <= own@.len(),
                added == super::parse::target_views(own@),
                super::parse::target_views(targets@) == start + added.take(k as int),
            decreases own@.len() - k,
        {
            let target = own[k].clone();
            let ghost before = targets@;
            targets.push(target);
            k += 1;
            assert(super::parse::target_views(targets@) =~= super::parse::target_views(before).push(
                target@,
            ));
            assert(added.take(k as int) =~= added.take(k - 1).push(target@));
            assert(start + added.take(k as int) =~= (start + added.take(k - 1)).push(target@));
        }
        i += 1;
        proof {
            assert(added.take(k as int) =~= added);
            assert(views.take(i as int).drop_last() =~= views.take(i - 1));
            assert(views.take(i as int).last() == pending@[i - 1]@);
        }
    }
    assert(views.take(i as int) =~= views);
    targets
}

/// The key of a target whose counterpart is not known yet.
pub open spec fn wanted_key(
    target: super::parse::TargetView,
    sites: Set<Seq<char>>,
    links: Map<(Seq<char>, Seq<char>), Option<Seq<char>>>,
) -> Option<(Seq<char>, Seq<char>)> {
    match target_key(sites, target) {
        Some(key) => if links.contains_key(key) {
            None
        } else {
            Some(key)
        },
        None => None,
    }
}

/// The keys to look up, in order.
pub open spec fn wanted_of(
    targets: Seq<super::parse::TargetView>,
    sites: Set<Seq<char>>,
    links: Map<(Seq<char>, Seq<char>), Option<Seq<char>>>,
) -> Seq<(Seq<char>, Seq<char>)> {
    targets.filter_map(|target: super::parse::TargetView| wanted_key(target, sites, links))
}

/// The language code of a target, if Wikidata does not know it.
pub open spec fn unknown_lang(
    target: super::parse::TargetView,
    sites: Set<Seq<char>>,
) -> Option<Seq<char>> {
    if target_site(sites, target.lang) is None {
        Some(target.lang)
    } else {
        None
    }
}

/// The language codes of targets that Wikidata does not know.
pub open spec fn unknown_of(
    targets: Seq<super::parse::TargetView>,
    sites: Set<Seq<char>>,
) -> Seq<Seq<char>> {
    targets.filter_map(|target: super::parse::TargetView| unknown_lang(target, sites))
}

/// The sites and titles of keys.
pub open spec fn key_views(keys: Seq<(String, String)>) -> Seq<(Seq<char>, Seq<char>)> {
    keys.map_values(|key: (String, String)| (key.0@, key.1@))
}

/// Say which counterparts to look up for the pending calls, and of which
/// language codes to warn. A code is warned of once.
pub fn wanted_sitelinks(wikidata: &Wikidata, caches: &mut Caches, pending: &[Pending]) -> (wanted: (
    Vec<(String, String)>,
    Vec<String>,
))
    ensures
        ({
            let targets = all_targets(pending_views(pending@));
            let unknown = unknown_of(targets, wikidata.sites@);
            &&& key_views(wanted.0@) == wanted_of(targets, wikidata.sites@, old(
                caches,
            ).sitelinks@)
            &&& crate::text::texts(wanted.1@) == crate::titles::unique_of(unknown).filter(
                |lang: Seq<char>| !old(caches).unknown_langs@.contains(lang),
            )
            &&& final(caches).ja@ == old(caches).ja@
            &&& final(caches).sitelinks@ == old(caches).sitelinks@
            &&& final(caches).unknown_langs@ == old(caches).unknown_langs@.union(unknown.to_set())
        }),
{
    let targets = targets_of(pending);
    let ghost views = super::parse::target_views(targets@);
    let ghost sites = wikidata.sites@;
    let ghost links = caches.sitelinks@;
    let ghost known = caches.unknown_langs@;
    let ghost fresh = |lang: Seq<char>| !known.contains(lang);
    let mut keys: Vec<(String, String)> = Vec::new();
    let mut warnings: Vec<String> = Vec::new();
    let mut i: usize = 0;
    proof {
        reveal(Seq::filter);
        assert(key_views(keys@) =~= wanted_of(views.take(0), sites, links));
        assert(crate::text::texts(warnings@) =~= crate::titles::unique_of(
            unknown_of(views.take(0), sites),
        ).filter(fresh));
    }
    while i < targets.len()
        invariant
            i <= targets@.len(),
            views == super::parse::target_views(targets@),
            sites == wikidata.sites@,
            links == caches.sitelinks@,
            caches.ja@ == old(caches).ja@,
            fresh == (|lang: Seq<char>| !known.contains(lang)),
            key_views(keys@) == wanted_of(views.take(i as int), sites, links),
            crate::text::texts(warnings@) == crate::titles::unique_of(
                unknown_of(views.take(i as int), sites),
            ).filter(fresh),
            forall|lang: Seq<char>| #[trigger]
                caches.unknown_langs@.contains(lang) == (known.contains(lang) || unknown_of(
                    views.take(i as int),
                    sites,
                ).contains(lang)),
        decreases targets@.len() - i,
    {
        let target: &LangTarget = &targets[i];
        let ghost met = unknown_of(views.take(i as int), sites);
        proof {
            views.lemma_filter_map_take_succ(
                |target: super::parse::TargetView| wanted_key(target, sites, links),
                i as int,
            );
            views.lemma_filter_map_take_succ(
                |target: super::parse::TargetView| unknown_lang(target, sites),
                i as int,
            );
        }
        let ghost before_keys = keys@;
        let ghost before_warnings = warnings@;
        let ghost before_unknown = caches.unknown_langs@;
        let (site, warn) = site_for(wikidata, caches, target.lang.as_str());
        match site {
            Some(site) => {
                let title = normalize_title(target.title.as_str());
                if !caches.sitelinks.contains_key(site.as_str(), title.as_str()) {
                    keys.push((site, title));
                    assert(key_views(keys@) =~= key_views(before_keys).push((site@, title@)));
                }
            },
            None => {
                if warn {
                    let lang: String = target.lang.clone();
                    warnings.push(lang);
                    assert(crate::text::texts(warnings@) =~= crate::text::texts(
                        before_warnings,
                    ).push(lang@));
                }
                proof {
                    let now = unknown_of(views.take(i + 1), sites);
                    assert(now =~= met.push(target.lang@));
                    assert(now.drop_last() =~= met);
                    assert forall|lang: Seq<char>| #[trigger]
                        caches.unknown_langs@.contains(lang) == (known.contains(lang)
                            || now.contains(lang)) by {
                        crate::titles::lemma_push_contains(met, target.lang@, lang);
                        assert(before_unknown.contains(lang) == (known.contains(lang)
                            || met.contains(lang)));
                    }
                    let once = crate::titles::unique_of(met);
                    assert(before_unknown.contains(target.lang@) == (known.contains(target.lang@)
                        || met.contains(target.lang@)));
                    reveal(Seq::filter);
                    assert(once.push(target.lang@).drop_last() =~= once);
                }
            },
        }
        i += 1;
    }
    assert(views.take(i as int) =~= views);
    assert(caches.unknown_langs@ =~= known.union(unknown_of(views, sites).to_set()));
    (keys, warnings)
}

/// The title of a key, if it is on a site.
pub open spec fn title_on(key: (Seq<char>, Seq<char>), site: Seq<char>) -> Option<Seq<char>> {
    if key.0 == site {
        Some(key.1)
    } else {
        None
    }
}

/// The titles of the keys on a site.
pub open spec fn titles_on(
    keys: Seq<(Seq<char>, Seq<char>)>,
    site: Seq<char>,
) -> Seq<Seq<char>> {
    keys.filter_map(|key: (Seq<char>, Seq<char>)| title_on(key, site))
}

/// The sites of keys.
pub open spec fn sites_of(keys: Seq<(Seq<char>, Seq<char>)>) -> Seq<Seq<char>> {
    keys.map_values(|key: (Seq<char>, Seq<char>)| key.0)
}

fn titles_for(keys: &[(String, String)], site: &str) -> (titles: Vec<String>)
    ensures
        crate::text::texts(titles@) == crate::titles::unique_of(
            titles_on(key_views(keys@), site@),
        ),
{
    let ghost views = key_views(keys@);
    let mut titles: Vec<String> = Vec::new();
    let mut i: usize = 0;
    assert(crate::text::texts(titles@) =~= titles_on(views.take(0), site@));
    while i < keys.len()
        invariant
            i <= keys@.len(),
            views == key_views(keys@),
            crate::text::texts(titles@) == titles_on(views.take(i as int), site@),
        decreases keys@.len() - i,
    {
        proof {
            views.lemma_filter_map_take_succ(
                |key: (Seq<char>, Seq<char>)| title_on(key, site@),
                i as int,
            );
        }
        let ghost before = titles@;
        if same(keys[i].0.as_str(), site) {
            let title: String = keys[i].1.clone();
            titles.push(title);
            assert(crate::text::texts(titles@) =~= crate::text::texts(before).push(title@));
        }
        i += 1;
    }
    assert(views.take(i as int) =~= views);
    unique(titles.as_slice())
}

/// The keys grouped by site, with each title once.
pub open spec fn groups_of(keys: Seq<(Seq<char>, Seq<char>)>) -> Seq<
    (Seq<char>, Seq<Seq<char>>),
> {
    crate::titles::unique_of(sites_of(keys)).map_values(
        |site: Seq<char>| (site, crate::titles::unique_of(titles_on(keys, site))),
    )
}

/// The sites and titles of groups.
pub open spec fn group_views(groups: Seq<(String, Vec<String>)>) -> Seq<
    (Seq<char>, Seq<Seq<char>>),
> {
    groups.map_values(|group: (String, Vec<String>)| (group.0@, crate::text::texts(group.1@)))
}

/// Group the counterparts to look up by site, with each title once.
pub fn group_by_site(keys: &[(String, String)]) -> (groups: Vec<(String, Vec<String>)>)
    ensures
        group_views(groups@) == groups_of(key_views(keys@)),
{
    let ghost all = sites_of(key_views(keys@));
    let mut names: Vec<String> = Vec::new();
    let mut i: usize = 0;
    assert(crate::text::texts(names@) =~= all.take(0));
    while i < keys.len()
        invariant
            i <= keys@.len(),
            all == sites_of(key_views(keys@)),
            crate::text::texts(names@) == all.take(i as int),
        decreases keys@.len() - i,
    {
        let ghost before = names@;
        let name: String = keys[i].0.clone();
        names.push(name);
        i += 1;
        assert(crate::text::texts(names@) =~= crate::text::texts(before).push(name@));
        assert(all.take(i as int) =~= all.take(i - 1).push(name@));
    }
    assert(all.take(i as int) =~= all);
    let sites = unique(names.as_slice());
    let ghost once = crate::titles::unique_of(all);
    assert(crate::text::texts(sites@) == once);
    let mut groups: Vec<(String, Vec<String>)> = Vec::new();
    let mut k: usize = 0;
    while k < sites.len()
        invariant
            k <= sites@.len(),
            crate::text::texts(sites@) == once,
            groups@.len() == k,
            forall|j: int|
                0 <= j < k ==> (#[trigger] groups@[j]).0@ == once[j] && crate::text::texts(
                    groups@[j].1@,
                ) == crate::titles::unique_of(titles_on(key_views(keys@), groups@[j].0@)),
        decreases sites@.len() - k,
    {
        let site: String = sites[k].clone();
        assert(crate::text::texts(sites@)[k as int] == site@);
        let titles = titles_for(keys, site.as_str());
        groups.push((site, titles));
        k += 1;
    }
    assert(crate::text::texts(sites@).len() == sites@.len());
    assert(group_views(groups@) =~= groups_of(key_views(keys@)));
    groups
}

/// The parameters of a question for the counterparts of titles on a site.
pub open spec fn sitelinks_params(site: Seq<char>, titles: Seq<Seq<char>>) -> Seq<
    (Seq<char>, Seq<char>),
> {
    if site == "wikidata"@ {
        super::wikidata::ids_params(titles)
    } else {
        super::wikidata::titles_params(site, titles)
    }
}

/// Request the counterparts of titles on a site.
pub fn sitelinks_request(site: &str, titles: &[String]) -> (params: Params)
    ensures
        crate::request::param_views(params@) == sitelinks_params(
            site@,
            crate::text::texts(titles@),
        ),
{
    if same(site, WIKIDATA_LANG) {
        ja_titles_for_ids_request(titles)
    } else {
        ja_titles_for_site_request(site, titles)
    }
}

/// The counterparts of titles on a site that a response gives.
pub open spec fn sitelinks_in(site: Seq<char>, resp: Json) -> Map<Seq<char>, Seq<char>> {
    let entities = resp.member("entities"@).members();
    if site == "wikidata"@ {
        super::wikidata::ja_titles_by_id(entities)
    } else {
        super::wikidata::ja_titles_by_title(entities, site)
    }
}

/// Read the counterparts of titles on a site.
pub fn found_sitelinks(site: &str, resp: &Json) -> (found: TitleTable)
    ensures
        found@ == sitelinks_in(site@, *resp),
{
    if same(site, WIKIDATA_LANG) {
        Wikidata::ja_titles_for_ids(resp)
    } else {
        Wikidata::ja_titles_for_site(resp, site)
    }
}

/// The counterpart of a target, if it is worth reporting.
///
/// A redirect whose target is exactly the Japanese article found through
/// Wikidata is not reported: the interlanguage link already points at the
/// right subject, and those calls are tracked by a template category.
pub open spec fn worth_reporting(
    target: super::parse::TargetView,
    sites: Set<Seq<char>>,
    links: Map<(Seq<char>, Seq<char>), Option<Seq<char>>>,
    state: super::jawiki::StateView,
) -> Option<Seq<char>> {
    match target_key(sites, target) {
        Some(key) => if links.contains_key(key) {
            match links[key] {
                Some(linked) => if state == super::jawiki::StateView::Redirect(linked) {
                    None
                } else {
                    Some(linked)
                },
                None => None,
            }
        } else {
            None
        },
        None => None,
    }
}

/// The first target worth reporting, with its counterpart.
pub open spec fn first_match(
    targets: Seq<super::parse::TargetView>,
    sites: Set<Seq<char>>,
    links: Map<(Seq<char>, Seq<char>), Option<Seq<char>>>,
    state: super::jawiki::StateView,
) -> Option<(super::parse::TargetView, Seq<char>)>
    decreases targets.len(),
{
    if targets.len() == 0 {
        None
    } else {
        match worth_reporting(targets[0], sites, links, state) {
            Some(linked) => Some((targets[0], linked)),
            None => first_match(targets.skip(1), sites, links, state),
        }
    }
}

fn counterpart(
    target: &LangTarget,
    wikidata: &Wikidata,
    caches: &Caches,
    state: &PageState,
) -> (linked: Option<String>)
    ensures
        crate::text::optional_text(linked) == worth_reporting(
            target@,
            wikidata.sites@,
            caches.sitelinks@,
            state@,
        ),
{
    let site = match known_site(wikidata, target.lang.as_str()) {
        Some(site) => site,
        None => {
            return None;
        },
    };
    let title = normalize_title(target.title.as_str());
    match caches.sitelinks.get(site.as_str(), title.as_str()) {
        Some(Some(linked)) => {
            let settled: bool = match state {
                PageState::Redirect(to) => same(to.as_str(), linked.as_str()),
                _ => false,
            };
            if settled {
                None
            } else {
                Some(linked.clone())
            }
        },
        _ => None,
    }
}

/// Find the first language target of `call` that has a Japanese counterpart
/// worth reporting.
pub fn match_target(
    wikidata: &Wikidata,
    caches: &Caches,
    call: &IllCall,
    state: &PageState,
) -> (found: Option<(LangTarget, String)>)
    ensures
        match found {
            Some((target, linked)) => first_match(
                call@.targets,
                wikidata.sites@,
                caches.sitelinks@,
                state@,
            ) == Some((target@, linked@)),
            None => first_match(call@.targets, wikidata.sites@, caches.sitelinks@, state@) is None,
        },
{
    let ghost views = call@.targets;
    let mut i: usize = 0;
    assert(views.skip(0) =~= views);
    while i < call.targets.len()
        invariant
            i <= call.targets@.len(),
            views == super::parse::target_views(call.targets@),
            views == call@.targets,
            first_match(views, wikidata.sites@, caches.sitelinks@, state@) == first_match(
                views.skip(i as int),
                wikidata.sites@,
                caches.sitelinks@,
                state@,
            ),
        decreases call.targets@.len() - i,
    {
        let ghost rest = views.skip(i as int);
        assert(rest[0] == call.targets@[i as int]@);
        assert(rest.skip(1) =~= views.skip(i + 1));
        if let Some(linked) = counterpart(&call.targets[i], wikidata, caches, state) {
            return Some((call.targets[i].clone(), linked));
        }
        i += 1;
    }
    None
}

/// The finding that a pending call gives.
pub open spec fn finding_for(
    pending: PendingView,
    sites: Set<Seq<char>>,
    links: Map<(Seq<char>, Seq<char>), Option<Seq<char>>>,
) -> Option<super::report::FindingView> {
    match first_match(pending.call.targets, sites, links, pending.state) {
        Some((target, linked)) => Some(
            super::report::FindingView {
                article: pending.article,
                ja_title: pending.call.ja_title,
                linked,
                raw: pending.call.raw,
                state: pending.state,
                target,
            },
        ),
        None => None,
    }
}

/// The findings that pending calls give, in order.
pub open spec fn findings_of(
    pending: Seq<PendingView>,
    sites: Set<Seq<char>>,
    links: Map<(Seq<char>, Seq<char>), Option<Seq<char>>>,
) -> Seq<super::report::FindingView> {
    pending.filter_map(|p: PendingView| finding_for(p, sites, links))
}

/// Resolve the pending calls of a round into findings.
pub fn findings(wikidata: &Wikidata, caches: &Caches, pending: &[Pending]) -> (found: Vec<Finding>)
    ensures
        super::report::finding_views(found@) == findings_of(
            pending_views(pending@),
            wikidata.sites@,
            caches.sitelinks@,
        ),
{
    let ghost views = pending_views(pending@);
    let ghost sites = wikidata.sites@;
    let ghost links = caches.sitelinks@;
    let mut found: Vec<Finding> = Vec::new();
    let mut i: usize = 0;
    assert(super::report::finding_views(found@) =~= findings_of(views.take(0), sites, links));
    while i < pending.len()
        invariant
            i <= pending@.len(),
            views == pending_views(pending@),
            sites == wikidata.sites@,
            links == caches.sitelinks@,
            super::report::finding_views(found@) == findings_of(
                views.take(i as int),
                sites,
                links,
            ),
        decreases pending@.len() - i,
    {
        proof {
            views.lemma_filter_map_take_succ(
                |p: PendingView| finding_for(p, sites, links),
                i as int,
            );
        }
        let ghost before = found@;
        let p: &Pending = &pending[i];
        if let Some((target, linked)) = match_target(wikidata, caches, &p.call, &p.state) {
            let finding = Finding {
                article: p.article.clone(),
                ja_title: p.call.ja_title.clone(),
                linked,
                raw: p.call.raw.clone(),
                state: p.state.clone(),
                target,
            };
            found.push(finding);
            assert(super::report::finding_views(found@) =~= super::report::finding_views(
                before,
            ).push(finding@));
        }
        i += 1;
    }
    assert(views.take(i as int) =~= views);
    found
}

/// The findings of a scan so far.
pub struct Scan {
    /// The findings to list, at most [`REPORT_LIMIT`].
    pub findings: Vec<Finding>,
    /// How many findings there were.
    pub total: usize,
    /// How many articles were scanned.
    pub scanned: usize,
}

impl Scan {
    /// Whether the first findings are listed, up to the limit.
    pub open spec fn is_valid(self) -> bool {
        self.findings@.len() == (if self.total < REPORT_LIMIT {
            self.total
        } else {
            REPORT_LIMIT
        })
    }

    /// Nothing scanned yet.
    pub fn new() -> (scan: Self)
        ensures
            scan.is_valid(),
            scan.findings@.len() == 0,
            scan.total == 0,
            scan.scanned == 0,
    {
        Scan { findings: Vec::new(), total: 0, scanned: 0 }
    }

    /// Add the findings of a round over so many articles. All of them count,
    /// and as many as the report has room for are listed.
    pub fn add_round(&mut self, found: Vec<Finding>, articles: usize)
        requires
            old(self).is_valid(),
            old(self).total + found@.len() <= usize::MAX,
            old(self).scanned + articles <= usize::MAX,
        ensures
            final(self).is_valid(),
            final(self).total == old(self).total + found@.len(),
            final(self).scanned == old(self).scanned + articles,
            ({
                let room = REPORT_LIMIT - old(self).findings@.len();
                final(self).findings@ == old(self).findings@ + (if found@.len() < room {
                    found@
                } else {
                    found@.take(room)
                })
            }),
    {
        let room: usize = REPORT_LIMIT - self.findings.len();
        self.total = self.total + found.len();
        self.scanned = self.scanned + articles;
        let mut listed = found;
        if listed.len() > room {
            listed.truncate(room);
        }
        self.findings.append(&mut listed);
    }
}

} // verus!
