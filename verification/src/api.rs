//! `MediaWiki` API requests and responses shared by maintenance tasks.

use vstd::prelude::*;
use vstd::slice::slice_subrange;

use crate::json::Json;
use crate::number::{decimal_text, parse};
use crate::request::{build_params, joined_numbers, Params};
use crate::text::{
    equal_ignoring_case, joined, split_at_each, stands_at, to_chars, to_text, trim,
};
use crate::titles::TitleSet;

verus! {

/// Namespace ID of the `Template` namespace.
pub const TEMPLATE_NAMESPACE: i64 = 10;

/// Namespace ID of the main (article) namespace.
pub const MAIN_NAMESPACE: u64 = 0;

/// How many results to request from a query page at once.
pub const PAGE_SIZE: u64 = 500;

/// How many times a transient failure is retried before giving up, where the
/// request itself counts as the first time.
pub const RETRY_ATTEMPTS: u32 = 3;

/// How many pages may be requested at once when the response includes page
/// content, which the API caps lower than metadata-only requests.
pub const CONTENT_BATCH: usize = 50;

/// Maximum `transcludedin` results for users with the `apihighlimits` right
/// (bot flag).
pub const HIGH_LIMIT: u64 = 5000;

/// Maximum `transcludedin` results for anonymous and non-bot users.
pub const LOW_LIMIT: u64 = 500;

/// A single result from a query page.
#[derive(Debug, PartialEq, Eq)]
pub struct QueryPageItem {
    pub title: String,
    /// Numeric value attached to the result, e.g. a transclusion count.
    pub value: u64,
    /// Number of direct transclusions in the main namespace.
    pub main_namespace_transclusions: u64,
    /// Whether the main-namespace count was truncated at the API limit.
    pub main_namespace_truncated: bool,
}

/// The contents of a [`QueryPageItem`].
#[verifier::ext_equal]
pub struct ItemView {
    pub title: Seq<char>,
    pub value: u64,
    pub main_namespace_transclusions: u64,
    pub main_namespace_truncated: bool,
}

impl View for QueryPageItem {
    type V = ItemView;

    open spec fn view(&self) -> ItemView {
        ItemView {
            title: self.title@,
            value: self.value,
            main_namespace_transclusions: self.main_namespace_transclusions,
            main_namespace_truncated: self.main_namespace_truncated,
        }
    }
}

impl Clone for QueryPageItem {
    fn clone(&self) -> (copy: Self)
        ensures
            copy@ == self@,
    {
        QueryPageItem {
            title: self.title.clone(),
            value: self.value,
            main_namespace_transclusions: self.main_namespace_transclusions,
            main_namespace_truncated: self.main_namespace_truncated,
        }
    }
}

/// The contents of a sequence of items.
pub open spec fn item_views(items: Seq<QueryPageItem>) -> Seq<ItemView> {
    items.map_values(|item: QueryPageItem| item@)
}

/// Why a request came to nothing.
#[derive(Debug, PartialEq, Eq)]
pub enum Failure {
    /// The transport failed, with the status of the response if there was one.
    Http(Option<u16>),
    /// Anything else, with a description.
    Unknown(String),
}

/// The contents of a [`Failure`].
pub enum FailureView {
    Http(Option<u16>),
    Unknown(Seq<char>),
}

impl View for Failure {
    type V = FailureView;

    open spec fn view(&self) -> FailureView {
        match self {
            Failure::Http(status) => FailureView::Http(*status),
            Failure::Unknown(description) => FailureView::Unknown(description@),
        }
    }
}

impl Failure {
    /// Whether the failure clears up on its own: a transport failure without a
    /// response, or a response with a 5xx status.
    pub open spec fn transient(self) -> bool {
        match self {
            Failure::Http(Some(status)) => 500 <= status < 600,
            Failure::Http(None) => true,
            Failure::Unknown(_) => false,
        }
    }
}

/// Whether an error is worth retrying.
pub fn is_transient(failure: &Failure) -> (yes: bool)
    ensures
        yes == failure.transient(),
{
    match failure {
        Failure::Http(Some(status)) => *status >= 500 && *status < 600,
        Failure::Http(None) => true,
        Failure::Unknown(_) => false,
    }
}

/// How far the attempts at one request have got.
#[derive(Debug, Clone, Copy, PartialEq, Eq, Structural)]
pub struct Retry {
    /// Attempts that have failed so far.
    pub failed: u32,
}

/// What to do about a failed attempt.
#[derive(Debug, Clone, Copy, PartialEq, Eq, Structural)]
pub enum RetryStep {
    /// Report the failure at once.
    Fail,
    /// Wait for so many seconds, then try again.
    Again(u64, Retry),
    /// Wait for so many seconds, then report the failure.
    FailAfter(u64),
}

/// The wait in seconds after the given number of earlier failures: one second
/// at first, twice as long each time.
pub open spec fn backoff(failed: nat) -> nat
    decreases failed,
{
    if failed == 0 {
        1
    } else {
        2 * backoff((failed - 1) as nat)
    }
}

impl Retry {
    /// Whether an attempt is still owed.
    pub open spec fn is_open(self) -> bool {
        self.failed < RETRY_ATTEMPTS
    }

    /// The state before the first attempt.
    pub fn new() -> (retry: Self)
        ensures
            retry.failed == 0,
            retry.is_open(),
    {
        Retry { failed: 0 }
    }

    /// Decide what follows a failed attempt.
    ///
    /// A transport failure or a 5xx response is retried with exponential
    /// backoff, since those clear up on their own. Anything the API itself
    /// rejected is reported straight away, because repeating the same request
    /// would fail the same way.
    pub fn after_failure(self, failure: &Failure) -> (step: RetryStep)
        requires
            self.is_open(),
        ensures
            match step {
                RetryStep::Fail => !failure.transient(),
                RetryStep::Again(wait, next) => {
                    &&& failure.transient()
                    &&& self.failed + 1 < RETRY_ATTEMPTS
                    &&& next.failed == self.failed + 1
                    &&& next.is_open()
                    &&& wait == backoff(self.failed as nat)
                },
                RetryStep::FailAfter(wait) => {
                    &&& failure.transient()
                    &&& self.failed + 1 == RETRY_ATTEMPTS
                    &&& wait == backoff(self.failed as nat)
                },
            },
    {
        if !is_transient(failure) {
            return RetryStep::Fail;
        }
        let mut wait: u64 = 1;
        let mut i: u32 = 0;
        while i < self.failed
            invariant
                i <= self.failed < RETRY_ATTEMPTS,
                wait == backoff(i as nat),
                wait <= 4,
                i == 0 ==> wait == 1,
                i == 1 ==> wait == 2,
            decreases self.failed - i,
        {
            wait = wait * 2;
            i += 1;
        }
        if self.failed + 1 < RETRY_ATTEMPTS {
            RetryStep::Again(wait, Retry { failed: self.failed + 1 })
        } else {
            RetryStep::FailAfter(wait)
        }
    }
}

/// The parameters of a request for one page of results of a query page.
pub open spec fn query_page_params(page: Seq<char>, offset: nat) -> Seq<(Seq<char>, Seq<char>)> {
    seq![
        ("action"@, "query"@),
        ("list"@, "querypage"@),
        ("qppage"@, page),
        ("qplimit"@, crate::number::decimal(PAGE_SIZE as nat)),
        ("qpoffset"@, crate::number::decimal(offset)),
    ]
}

/// Request one page of results of a query page, from `offset` on.
pub fn query_page_request(page: &str, offset: u64) -> (params: Params)
    ensures
        crate::request::param_views(params@) == query_page_params(page@, offset as nat),
{
    let limit = decimal_text(PAGE_SIZE);
    let from = decimal_text(offset);
    let params = build_params(
        &[
            ("action", "query"),
            ("list", "querypage"),
            ("qppage", page),
            ("qplimit", limit.as_str()),
            ("qpoffset", from.as_str()),
        ],
    );
    params
}

/// The item that a result of a query page stands for: a page of the template
/// namespace with a title and a number.
pub open spec fn item_of(result: Json) -> Option<ItemView> {
    if result.member("ns"@).signed() != Some(TEMPLATE_NAMESPACE) {
        None
    } else {
        match (result.member("title"@).text(), result.member("value"@).text()) {
            (Some(title), Some(value)) => match crate::number::parsed(value, u64::MAX as nat) {
                Some(n) => Some(
                    ItemView {
                        title,
                        value: n as u64,
                        main_namespace_transclusions: 0,
                        main_namespace_truncated: false,
                    },
                ),
                None => None,
            },
            _ => None,
        }
    }
}

/// The items among the results of a query page, in order.
pub open spec fn items_of(results: Seq<Json>) -> Seq<ItemView> {
    results.filter_map(|result: Json| item_of(result))
}

fn read_item(result: &Json) -> (item: Option<QueryPageItem>)
    ensures
        match item {
            Some(item) => item_of(*result) == Some(item@),
            None => item_of(*result) is None,
        },
{
    if result.get("ns").as_i64() != Some(TEMPLATE_NAMESPACE) {
        return None;
    }
    match (result.get("title").as_str(), result.get("value").as_str()) {
        (Some(title), Some(value)) => match parse(value, u64::MAX) {
            Some(value) => Some(
                QueryPageItem {
                    title: title.to_owned(),
                    value,
                    main_namespace_transclusions: 0,
                    main_namespace_truncated: false,
                },
            ),
            None => None,
        },
        _ => None,
    }
}

/// Read one page of results of a query page.
///
/// Gives the items and the offset for the next page, if any. Results outside
/// the `Template` namespace are skipped. A response without a list of results
/// is an error.
pub fn query_page_results(resp: &Json) -> (page: Result<(Vec<QueryPageItem>, Option<u64>), Failure>)
    ensures
        ({
            let results = resp.member("query"@).member("querypage"@).member("results"@);
            match page {
                Ok((items, next)) => {
                    &&& results is Array
                    &&& item_views(items@) == items_of(results.elements())
                    &&& next == resp.member("continue"@).member("qpoffset"@).unsigned()
                },
                Err(failure) => {
                    &&& results !is Array
                    &&& failure is Unknown
                    &&& failure->Unknown_0@ == "querypage results are missing"@
                },
            }
        }),
{
    let results = match resp.get("query").get("querypage").get("results").as_array() {
        Some(results) => results,
        None => {
            return Err(Failure::Unknown("querypage results are missing".to_owned()));
        },
    };
    let mut items: Vec<QueryPageItem> = Vec::new();
    let mut i: usize = 0;
    while i < results.len()
        invariant
            i <= results@.len(),
            item_views(items@) == items_of(results@.take(i as int)),
        decreases results@.len() - i,
    {
        proof {
            results@.lemma_filter_map_take_succ(|result: Json| item_of(result), i as int);
        }
        let ghost before = items@;
        if let Some(item) = read_item(&results[i]) {
            items.push(item);
            assert(item_views(items@) =~= item_views(before).push(item@));
        }
        i += 1;
    }
    assert(results@.take(i as int) =~= results@);
    Ok((items, resp.get("continue").get("qpoffset").as_u64()))
}

/// The titles of a sequence of items.
pub open spec fn titles_of(items: Seq<ItemView>) -> Seq<Seq<char>> {
    items.map_values(|item: ItemView| item.title)
}

/// The parameters of a question for the `TemplateData` of templates.
pub open spec fn templatedata_params(titles: Seq<Seq<char>>) -> Seq<(Seq<char>, Seq<char>)> {
    seq![
        ("action"@, "templatedata"@),
        ("titles"@, crate::text::join(titles, "|"@)),
    ]
}

/// Ask which of the given templates have `TemplateData`.
pub fn templatedata_request(templates: &[QueryPageItem]) -> (params: Params)
    ensures
        crate::request::param_views(params@) == templatedata_params(
            titles_of(item_views(templates@)),
        ),
{
    let mut titles: Vec<String> = Vec::new();
    let mut i: usize = 0;
    while i < templates.len()
        invariant
            i <= templates@.len(),
            crate::text::texts(titles@) == titles_of(item_views(templates@)).take(i as int),
        decreases templates@.len() - i,
    {
        let title = templates[i].title.clone();
        let ghost before = titles@;
        titles.push(title);
        i += 1;
        assert(crate::text::texts(titles@) =~= crate::text::texts(before).push(title@));
        assert(titles_of(item_views(templates@)).take(i as int) =~= titles_of(item_views(templates@)).take(i - 1).push(
            title@,
        ));
    }
    assert(titles_of(item_views(templates@)).take(i as int) =~= titles_of(item_views(templates@)));
    let all = joined(titles.as_slice(), "|");
    build_params(&[("action", "templatedata"), ("titles", all.as_str())])
}

/// Whether a member of `pages` carries the title.
pub open spec fn has_page_titled(pages: Seq<(String, Json)>, title: Seq<char>) -> bool {
    exists|i: int|
        0 <= i < pages.len() && (#[trigger] pages[i]).1.member("title"@).text() == Some(title)
}

/// The titles that the pages of a response carry.
pub open spec fn titles_in(resp: Json) -> Set<Seq<char>> {
    Set::new(|title: Seq<char>| has_page_titled(resp.member("pages"@).members(), title))
}

fn response_titles(resp: &Json) -> (titles: TitleSet)
    ensures
        titles@ == titles_in(*resp),
{
    let pages = resp.get("pages").entries();
    let mut titles = TitleSet::new();
    let mut i: usize = 0;
    while i < pages.len()
        invariant
            i <= pages@.len(),
            forall|title: Seq<char>|
                titles@.contains(title) == has_page_titled(pages@.take(i as int), title),
        decreases pages@.len() - i,
    {
        let page = &pages[i].1;
        let ghost seen = pages@.take(i as int);
        let ghost now = pages@.take(i + 1);
        if let Some(title) = page.get("title").as_str() {
            titles.insert(title.to_owned());
        }
        assert forall|title: Seq<char>| titles@.contains(title) == has_page_titled(now, title) by {
            if has_page_titled(seen, title) {
                let j = choose|j: int|
                    0 <= j < seen.len() && (#[trigger] seen[j]).1.member("title"@).text() == Some(
                        title,
                    );
                assert(now[j] == seen[j]);
            }
            if has_page_titled(now, title) {
                let j = choose|j: int|
                    0 <= j < now.len() && (#[trigger] now[j]).1.member("title"@).text() == Some(
                        title,
                    );
                if j < i {
                    assert(seen[j] == now[j]);
                }
            }
            assert(now[i as int] == pages@[i as int]);
        }
        i += 1;
    }
    assert(pages@.take(i as int) =~= pages@);
    assert(titles@ =~= titles_in(*resp));
    titles
}

/// Read the subset of the given template titles that have `TemplateData`.
///
/// The `templatedata` API only returns pages that have a valid `TemplateData`
/// block stored on them (via the `page_props` table), so any requested title
/// absent from the response has no usable `TemplateData`.
pub fn titles_with_templatedata(templates: &[QueryPageItem], resp: &Json) -> (titles: TitleSet)
    ensures
        titles@ == titles_of(item_views(templates@)).to_set().intersect(titles_in(*resp)),
{
    let answered = response_titles(resp);
    let ghost all = titles_of(item_views(templates@));
    let mut titles = TitleSet::new();
    let mut i: usize = 0;
    assert(all.take(0) =~= seq![]);
    while i < templates.len()
        invariant
            i <= templates@.len(),
            all == titles_of(item_views(templates@)),
            answered@ == titles_in(*resp),
            forall|title: Seq<char>| #[trigger]
                titles@.contains(title) == (all.take(i as int).contains(title)
                    && answered@.contains(title)),
        decreases templates@.len() - i,
    {
        let ghost before = titles@;
        let title: &String = &templates[i].title;
        if answered.contains(title.as_str()) {
            titles.insert(title.clone());
        }
        i += 1;
        proof {
            let seen = all.take(i - 1);
            assert(all.take(i as int) =~= seen.push(title@));
            assert forall|t: Seq<char>| #[trigger]
                titles@.contains(t) == (all.take(i as int).contains(t) && answered@.contains(
                    t,
                )) by {
                crate::titles::lemma_push_contains(seen, title@, t);
                assert(before.contains(t) == (seen.contains(t) && answered@.contains(t)));
            }
        }
    }
    assert(all.take(i as int) =~= all);
    assert(titles@ =~= all.to_set().intersect(titles_in(*resp)));
    titles
}

/// The parameters of a question for the rights of the current user.
pub open spec fn rights_params() -> Seq<(Seq<char>, Seq<char>)> {
    seq![
        ("action"@, "query"@),
        ("meta"@, "userinfo"@),
        ("uiprop"@, "rights"@),
    ]
}

/// Ask for the rights of the current user.
pub fn rights_request() -> (params: Params)
    ensures
        crate::request::param_views(params@) == rights_params(),
{
    build_params(&[("action", "query"), ("meta", "userinfo"), ("uiprop", "rights")])
}

/// Whether one of the values is the given text.
pub open spec fn lists_text(values: Seq<Json>, text: Seq<char>) -> bool {
    exists|i: int| 0 <= i < values.len() && (#[trigger] values[i]).text() == Some(text)
}

/// Whether the current user has the `apihighlimits` right (bot flag).
///
/// The right raises the maximum number of results that can be requested with a
/// single API call, `transcludedin` among them.
pub fn has_high_limits(resp: &Json) -> (yes: bool)
    ensures
        yes == lists_text(
            resp.member("query"@).member("userinfo"@).member("rights"@).elements(),
            "apihighlimits"@,
        ),
{
    let rights = resp.get("query").get("userinfo").get("rights").items();
    let mut i: usize = 0;
    while i < rights.len()
        invariant
            i <= rights@.len(),
            rights@ == resp.member("query"@).member("userinfo"@).member("rights"@).elements(),
            forall|j: int| 0 <= j < i ==> (#[trigger] rights@[j]).text() != Some("apihighlimits"@),
        decreases rights@.len() - i,
    {
        if rights[i].is_str("apihighlimits") {
            assert(rights@[i as int].text() == Some("apihighlimits"@));
            return true;
        }
        i += 1;
    }
    false
}

/// The `transcludedin` result limit per request for the current user.
///
/// This is the API's per-request maximum, so that requesting it never trips an
/// `outofrange` warning.
#[must_use]
pub fn transclusion_limit(high_limits: bool) -> (limit: u64)
    ensures
        limit == (if high_limits {
            HIGH_LIMIT
        } else {
            LOW_LIMIT
        }),
{
    if high_limits {
        HIGH_LIMIT
    } else {
        LOW_LIMIT
    }
}

/// The parameters of a question for the pages that transclude a template.
pub open spec fn transclusions_params(title: Seq<char>, per_request: nat) -> Seq<
    (Seq<char>, Seq<char>),
> {
    seq![
        ("action"@, "query"@),
        ("prop"@, "transcludedin"@),
        ("titles"@, title),
        ("tinamespace"@, crate::number::decimal(MAIN_NAMESPACE as nat)),
        ("tilimit"@, crate::number::decimal(per_request)),
    ]
}

/// Ask for the main-namespace pages that transclude a template.
pub fn transclusions_request(title: &str, per_request: u64) -> (params: Params)
    ensures
        crate::request::param_views(params@) == transclusions_params(title@, per_request as nat),
{
    let namespace = decimal_text(MAIN_NAMESPACE);
    let limit = decimal_text(per_request);
    build_params(
        &[
            ("action", "query"),
            ("prop", "transcludedin"),
            ("titles", title),
            ("tinamespace", namespace.as_str()),
            ("tilimit", limit.as_str()),
        ],
    )
}

/// The page ids among a list of pages, in order.
pub open spec fn page_ids_of(pages: Seq<Json>) -> Seq<u64> {
    pages.filter_map(|page: Json| page.member("pageid"@).unsigned())
}

/// Read the main-namespace pages that transclude a template, and whether there
/// are more than the response lists.
pub fn transcluding_pages(resp: &Json) -> (found: (Vec<u64>, bool))
    ensures
        found.0@ == page_ids_of(
            resp.member("query"@).member("pages"@).element(0).member("transcludedin"@).elements(),
        ),
        found.1 == (resp.member("continue"@).member("ticontinue"@).text() is Some),
{
    let pages = resp.get("query").get("pages").at(0).get("transcludedin").items();
    let mut ids: Vec<u64> = Vec::new();
    let mut i: usize = 0;
    while i < pages.len()
        invariant
            i <= pages@.len(),
            ids@ == page_ids_of(pages@.take(i as int)),
        decreases pages@.len() - i,
    {
        proof {
            pages@.lemma_filter_map_take_succ(
                |page: Json| page.member("pageid"@).unsigned(),
                i as int,
            );
        }
        if let Some(id) = pages[i].get("pageid").as_u64() {
            ids.push(id);
        }
        i += 1;
    }
    assert(pages@.take(i as int) =~= pages@);
    let more: bool = resp.get("continue").get("ticontinue").as_str().is_some();
    (ids, more)
}

/// The parameters of a question for the wikitext of pages.
pub open spec fn page_contents_params(ids: Seq<u64>) -> Seq<(Seq<char>, Seq<char>)> {
    seq![
        ("action"@, "query"@),
        ("prop"@, "revisions"@),
        ("rvprop"@, "content"@),
        ("rvslots"@, "main"@),
        ("pageids"@, crate::text::join(crate::request::decimals(ids), "|"@)),
        ("formatversion"@, "2"@),
    ]
}

/// Ask for the wikitext of a batch of pages.
///
/// At most [`CONTENT_BATCH`] page ids may be asked for, which is the API limit
/// for requests that include page content.
pub fn page_contents_request(ids: &[u64]) -> (params: Params)
    ensures
        crate::request::param_views(params@) == page_contents_params(ids@),
{
    let all = joined_numbers(ids);
    build_params(
        &[
            ("action", "query"),
            ("prop", "revisions"),
            ("rvprop", "content"),
            ("rvslots", "main"),
            ("pageids", all.as_str()),
            ("formatversion", "2"),
        ],
    )
}

/// The wikitext of a page in a response, empty where there is none.
pub open spec fn content_of(page: Json) -> Seq<char> {
    match page.member("revisions"@).element(0).member("slots"@).member("main"@).member(
        "content"@,
    ).text() {
        Some(content) => content,
        None => seq![],
    }
}

/// The wikitext of a page in a response, empty where there is none.
pub fn page_content(page: &Json) -> (content: String)
    ensures
        content@ == content_of(*page),
{
    match page.get("revisions").at(0).get("slots").get("main").get("content").as_str() {
        Some(content) => content.to_owned(),
        None => String::new(),
    }
}

/// Whether `c` ends the name in a template invocation.
pub open spec fn ends_name(c: char) -> bool {
    c == '|' || c == '}' || c == '<' || c == '\n'
}

/// `s` up to the first character that ends a template name.
pub open spec fn name_part(s: Seq<char>) -> Seq<char>
    decreases s.len(),
{
    if s.len() == 0 || ends_name(s[0]) {
        seq![]
    } else {
        seq![s[0]] + name_part(s.skip(1))
    }
}

/// Whether `content` invokes `template` directly: whether the name after some
/// `{{` is the template's, up to white space around it and ASCII case.
pub open spec fn invokes(content: Seq<char>, template: Seq<char>) -> bool {
    let parts = crate::text::split(content, "{{"@);
    exists|i: int|
        1 <= i < parts.len() && crate::text::same_ignoring_case(
            crate::text::trimmed(name_part(#[trigger] parts[i])),
            template,
        )
}

proof fn lemma_name_part(s: Seq<char>, n: int)
    requires
        0 <= n <= s.len(),
        forall|i: int| 0 <= i < n ==> !ends_name(#[trigger] s[i]),
        n < s.len() ==> ends_name(s[n]),
    ensures
        name_part(s) == s.take(n),
    decreases n,
{
    if n > 0 {
        let rest = s.skip(1);
        assert forall|i: int| 0 <= i < n - 1 implies !ends_name(#[trigger] rest[i]) by {
            assert(rest[i] == s[i + 1]);
        }
        lemma_name_part(rest, n - 1);
        assert(seq![s[0]] + rest.take(n - 1) =~= s.take(n));
    } else {
        assert(s.take(0) =~= seq![]);
    }
}

fn leading_name<'a>(s: &'a [char]) -> (name: &'a [char])
    ensures
        name@ == name_part(s@),
{
    let mut n: usize = 0;
    while n < s.len() && s[n] != '|' && s[n] != '}' && s[n] != '<' && s[n] != '\n'
        invariant
            n <= s@.len(),
            forall|i: int| 0 <= i < n ==> !ends_name(#[trigger] s@[i]),
        decreases s@.len() - n,
    {
        n += 1;
    }
    proof {
        lemma_name_part(s@, n as int);
        assert(s@.subrange(0, n as int) =~= s@.take(n as int));
    }
    slice_subrange(s, 0, n)
}

/// Whether `content` contains a direct invocation of `{{template}}` or
/// `{{template|...}}`. Template names are matched exactly (case-insensitive,
/// leading/trailing whitespace ignored) and subpage or parser-function calls
/// such as `{{template/foo}}` do not count.
pub fn has_template_invocation(content: &str, template: &str) -> (yes: bool)
    ensures
        yes == invokes(content@, template@),
{
    let chars = to_chars(content);
    let wanted = to_chars(template);
    let braces = to_chars("{{");
    proof {
        reveal_strlit("{{");
    }
    let parts = split_at_each(chars.as_slice(), braces.as_slice());
    let ghost views = crate::text::split(content@, "{{"@);
    let mut i: usize = 1;
    while i < parts.len()
        invariant
            1 <= i,
            crate::text::pieces(parts@) == views,
            views == crate::text::split(content@, "{{"@),
            wanted@ == template@,
            forall|j: int|
                1 <= j < i && j < views.len() ==> !crate::text::same_ignoring_case(
                    crate::text::trimmed(name_part(#[trigger] views[j])),
                    template@,
                ),
        decreases parts@.len() - i,
    {
        assert(views[i as int] == parts@[i as int]@);
        if equal_ignoring_case(trim(leading_name(parts[i])), wanted.as_slice()) {
            return true;
        }
        i += 1;
    }
    assert(views.len() == parts@.len());
    false
}

/// The pages of a response whose wikitext invokes the template.
pub open spec fn invoking_pages(resp: Json, template: Seq<char>) -> Seq<Json> {
    resp.member("query"@).member("pages"@).elements().filter(
        |page: Json| invokes(content_of(page), template),
    )
}

/// Count the pages of a response whose wikitext invokes `{{template}}` or
/// `{{template|...}}` directly.
pub fn count_direct_invocations(resp: &Json, template: &str) -> (count: usize)
    ensures
        count == invoking_pages(*resp, template@).len(),
{
    let pages = resp.get("query").get("pages").items();
    let ghost pick = |page: Json| invokes(content_of(page), template@);
    let mut count: usize = 0;
    let mut i: usize = 0;
    assert(pages@.take(0).filter(pick) =~= seq![]) by {
        reveal(Seq::filter);
    }
    while i < pages.len()
        invariant
            count <= i <= pages@.len(),
            pick == (|page: Json| invokes(content_of(page), template@)),
            count == pages@.take(i as int).filter(pick).len(),
        decreases pages@.len() - i,
    {
        let content = page_content(&pages[i]);
        let found: bool = has_template_invocation(content.as_str(), template);
        proof {
            reveal(Seq::filter);
            assert(pages@.take(i + 1).drop_last() =~= pages@.take(i as int));
        }
        if found {
            count += 1;
        }
        i += 1;
    }
    assert(pages@.take(i as int) =~= pages@);
    count
}

/// `title` without the `Template:` namespace prefix.
pub open spec fn without_template_prefix(title: Seq<char>) -> Seq<char> {
    if crate::text::starts_with(title, "Template:"@) {
        title.skip("Template:"@.len() as int)
    } else {
        title
    }
}

/// Strip the `Template:` namespace prefix, if present.
pub fn strip_template_prefix(title: &str) -> (rest: String)
    ensures
        rest@ == without_template_prefix(title@),
{
    let chars = to_chars(title);
    let prefix = to_chars("Template:");
    if stands_at(chars.as_slice(), prefix.as_slice(), 0) {
        let rest = slice_subrange(chars.as_slice(), prefix.len(), chars.len());
        assert(rest@ =~= title@.skip(prefix@.len() as int));
        assert(title@.subrange(0, prefix@.len() as int) =~= title@.take(prefix@.len() as int));
        return to_text(rest);
    }
    proof {
        if prefix@.len() <= title@.len() {
            assert(title@.subrange(0, prefix@.len() as int) =~= title@.take(prefix@.len() as int));
        }
    }
    title.to_owned()
}

/// Template names match whatever their ASCII case.
pub proof fn invocations_ignore_case(content: Seq<char>, a: Seq<char>, b: Seq<char>)
    requires
        crate::text::same_ignoring_case(a, b),
    ensures
        invokes(content, a) == invokes(content, b),
{
    let parts = crate::text::split(content, "{{"@);
    if invokes(content, a) {
        let i = choose|i: int|
            1 <= i < parts.len() && crate::text::same_ignoring_case(
                crate::text::trimmed(name_part(#[trigger] parts[i])),
                a,
            );
        assert(crate::text::same_ignoring_case(
            crate::text::trimmed(name_part(parts[i])),
            b,
        ));
    }
    if invokes(content, b) {
        let i = choose|i: int|
            1 <= i < parts.len() && crate::text::same_ignoring_case(
                crate::text::trimmed(name_part(#[trigger] parts[i])),
                b,
            );
        assert(crate::text::same_ignoring_case(
            crate::text::trimmed(name_part(parts[i])),
            a,
        ));
    }
}

/// Wikitext without `{{` invokes nothing.
pub proof fn no_opening_no_invocation(content: Seq<char>, template: Seq<char>)
    requires
        !crate::text::occurs(content, "{{"@),
    ensures
        !invokes(content, template),
{
    crate::text::find_is_the_first_occurrence(content, "{{"@);
    assert(crate::text::split(content, "{{"@).len() == 1);
}

/// Whether a template name holds nothing that ends it or opens another
/// template.
pub open spec fn is_plain_name(name: Seq<char>) -> bool {
    forall|i: int| 0 <= i < name.len() ==> !ends_name(#[trigger] name[i]) && name[i] != '{'
}

/// The text behind an opening that its name and the end of the name start.
proof fn lemma_opened_part(
    pre: Seq<char>,
    name: Seq<char>,
    stop: char,
    post: Seq<char>,
)
    requires
        is_plain_name(name),
        ends_name(stop),
    ensures
        ({
            let s = pre + seq!['{', '{'] + name + seq![stop] + post;
            name_part(crate::text::split_from(s, "{{"@, pre.len() as int + 2)[0]) == name
        }),
{
    reveal_strlit("{{");
    let braces = "{{"@;
    assert(braces =~= seq!['{', '{']);
    let s = pre + seq!['{', '{'] + name + seq![stop] + post;
    let b = pre.len() as int + 2;
    let c = b + name.len();
    assert forall|j: int| b <= j <= c implies !crate::text::occurs_at(s, braces, j) by {
        if crate::text::occurs_at(s, braces, j) {
            assert(s.subrange(j, j + 2)[0] == s[j]);
            if j < c {
                assert(s[j] == name[j - b]);
            } else {
                assert(s[j] == stop);
            }
        }
    }
    crate::text::lemma_find_from(s, braces, b);
    let piece = crate::text::split_from(s, braces, b)[0];
    match crate::text::find_from(s, braces, b) {
        Some(k) => {
            assert(k > c);
            assert(piece =~= s.subrange(b, k));
        },
        None => {
            assert(piece =~= s.skip(b));
        },
    }
    assert forall|i: int| 0 <= i < name.len() implies !ends_name(#[trigger] piece[i]) by {
        assert(piece[i] == name[i]);
    }
    assert(piece[name.len() as int] == stop);
    lemma_name_part(piece, name.len() as int);
    assert(piece.take(name.len() as int) =~= name);
}

/// An invocation counts whatever stands before it, unless that runs on into its
/// braces, and whatever follows the character that ends its name.
pub proof fn a_plain_invocation_counts(
    pre: Seq<char>,
    name: Seq<char>,
    stop: char,
    post: Seq<char>,
    template: Seq<char>,
)
    requires
        pre.len() > 0 ==> pre.last() != '{',
        is_plain_name(name),
        ends_name(stop),
        crate::text::same_ignoring_case(crate::text::trimmed(name), template),
    ensures
        invokes(pre + seq!['{', '{'] + name + seq![stop] + post, template),
{
    reveal_strlit("{{");
    let braces = "{{"@;
    assert(braces =~= seq!['{', '{']);
    let s = pre + seq!['{', '{'] + name + seq![stop] + post;
    let a = pre.len() as int;
    assert(s.subrange(a, a + 2) =~= braces);
    assert forall|j: int| a - 2 < j < a implies !#[trigger] crate::text::occurs_at(
        s,
        braces,
        j,
    ) by {
        if crate::text::occurs_at(s, braces, j) {
            assert(s.subrange(j, j + 2)[0] == pre.last());
        }
    }
    crate::text::a_split_starts_behind_each_separator(s, braces, 0, a);
    lemma_opened_part(pre, name, stop, post);
    let parts = crate::text::split(s, braces);
    let i = choose|i: int|
        1 <= i < parts.len() && #[trigger] parts[i] == crate::text::split_from(s, braces, a + 2)[0];
    assert(crate::text::same_ignoring_case(crate::text::trimmed(name_part(parts[i])), template));
}

/// Names are matched whole: text with a single opening does not invoke a
/// template of another name, such as that of a subpage.
pub proof fn other_names_do_not_count(
    pre: Seq<char>,
    name: Seq<char>,
    stop: char,
    post: Seq<char>,
    template: Seq<char>,
)
    requires
        !pre.contains('{'),
        !post.contains('{'),
        is_plain_name(name),
        ends_name(stop),
        !crate::text::same_ignoring_case(crate::text::trimmed(name), template),
    ensures
        !invokes(pre + seq!['{', '{'] + name + seq![stop] + post, template),
{
    reveal_strlit("{{");
    let braces = "{{"@;
    assert(braces =~= seq!['{', '{']);
    let s = pre + seq!['{', '{'] + name + seq![stop] + post;
    let a = pre.len() as int;
    assert(s.subrange(a, a + 2) =~= braces);
    assert forall|j: int| j != a implies !#[trigger] crate::text::occurs_at(s, braces, j) by {
        if crate::text::occurs_at(s, braces, j) {
            let pair = s.subrange(j, j + 2);
            assert(pair[0] == s[j] && pair[1] == s[j + 1]);
            if j < a {
                assert(pre.contains(pre[j]));
            } else if j + 1 <= a + 2 + name.len() {
                if j + 1 < a + 2 + name.len() {
                    assert(s[j + 1] == name[j + 1 - a - 2]);
                } else {
                    assert(s[j + 1] == stop);
                }
            } else {
                let k = j + 1 - a - 3 - name.len();
                assert(post.contains(post[k]));
            }
        }
    }
    assert(crate::text::occurs_at(s, braces, a));
    crate::text::lemma_find_from(s, braces, 0);
    assert(crate::text::find_from(s, braces, 0) == Some(a));
    crate::text::lemma_find_from(s, braces, a + 2);
    assert(crate::text::find_from(s, braces, a + 2) is None);
    let rest = crate::text::split_from(s, braces, a + 2);
    assert(rest == seq![s.skip(a + 2)]);
    assert(crate::text::split(s, braces) == seq![s.subrange(0, a)] + rest);
    lemma_opened_part(pre, name, stop, post);
}

/// The wait doubles with each failure, from one second on.
pub proof fn backoff_doubles(failed: nat)
    ensures
        backoff(0) == 1,
        backoff(failed + 1) == 2 * backoff(failed),
{
}

} // verus!
