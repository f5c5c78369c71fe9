//! The survey of templates: which requests to make, and what follows from the
//! replies.
//!
//! The top candidates by total transclusion count are collected from the query
//! page, filtered by the `templatedata` API, and counted by direct
//! main-namespace usage. Each template is queried individually to respect the
//! API rate limits.

use vstd::prelude::*;

use super::{keep_top, record_usage, without_templatedata, Candidates, TEMPLATEDATA_BATCH};
use crate::api::{
    count_direct_invocations, has_high_limits, page_contents_request, query_page_request,
    query_page_results, rights_request, strip_template_prefix, templatedata_request,
    titles_with_templatedata, transcluding_pages, transclusion_limit, transclusions_request,
    Failure, QueryPageItem, CONTENT_BATCH,
};
use crate::batch::{batch, end_of_batch};
use crate::json::Json;
use crate::request::Params;

verus! {

/// The query page that lists templates by transclusion count.
pub const QUERY_PAGE: &'static str = "Mostlinkedtemplates";

/// A survey, by what it waits for.
pub enum Survey {
    /// The query page from an offset on.
    Listing { candidates: Candidates, offset: u64 },
    /// Which templates of the batch from `at` on have `TemplateData`.
    Filtering { items: Vec<QueryPageItem>, at: usize, kept: Vec<QueryPageItem> },
    /// The rights of the user.
    Rights { kept: Vec<QueryPageItem> },
    /// The pages that transclude the template at `index`.
    Usage { templates: Vec<QueryPageItem>, index: usize, limit: u64 },
    /// The wikitext of the pages of the batch from `at` on.
    Contents {
        templates: Vec<QueryPageItem>,
        index: usize,
        limit: u64,
        ids: Vec<u64>,
        at: usize,
        count: u64,
        truncated: bool,
    },
    /// Nothing: these are the templates without `TemplateData`, counted.
    Done { templates: Vec<QueryPageItem> },
    /// Nothing: the survey has failed.
    Failed { failure: Failure },
}

/// The contents of a [`Survey`].
pub enum SurveyView {
    Listing { wanted: nat, items: Seq<crate::api::ItemView>, offset: u64 },
    Filtering { items: Seq<crate::api::ItemView>, at: int, kept: Seq<crate::api::ItemView> },
    Rights { kept: Seq<crate::api::ItemView> },
    Usage { templates: Seq<crate::api::ItemView>, index: int, limit: u64 },
    Contents {
        templates: Seq<crate::api::ItemView>,
        index: int,
        limit: u64,
        ids: Seq<u64>,
        at: int,
        count: nat,
        truncated: bool,
    },
    Done { templates: Seq<crate::api::ItemView> },
    Failed { failure: crate::api::FailureView },
}

impl View for Survey {
    type V = SurveyView;

    open spec fn view(&self) -> SurveyView {
        match self {
            Survey::Listing { candidates, offset } => SurveyView::Listing {
                wanted: candidates.wanted as nat,
                items: crate::api::item_views(candidates.items@),
                offset: *offset,
            },
            Survey::Filtering { items, at, kept } => SurveyView::Filtering {
                items: crate::api::item_views(items@),
                at: *at as int,
                kept: crate::api::item_views(kept@),
            },
            Survey::Rights { kept } => SurveyView::Rights { kept: crate::api::item_views(kept@) },
            Survey::Usage { templates, index, limit } => SurveyView::Usage {
                templates: crate::api::item_views(templates@),
                index: *index as int,
                limit: *limit,
            },
            Survey::Contents { templates, index, limit, ids, at, count, truncated } => {
                SurveyView::Contents {
                    templates: crate::api::item_views(templates@),
                    index: *index as int,
                    limit: *limit,
                    ids: ids@,
                    at: *at as int,
                    count: *count as nat,
                    truncated: *truncated,
                }
            },
            Survey::Done { templates } => SurveyView::Done {
                templates: crate::api::item_views(templates@),
            },
            Survey::Failed { failure } => SurveyView::Failed { failure: failure@ },
        }
    }
}

impl SurveyView {
    /// Whether a survey waits for something that there is.
    pub open spec fn is_valid(self) -> bool {
        match self {
            SurveyView::Listing { wanted, items, .. } => items.len() < wanted <= usize::MAX,
            SurveyView::Filtering { items, at, .. } => 0 <= at < items.len(),
            SurveyView::Usage { templates, index, .. } => 0 <= index < templates.len(),
            SurveyView::Contents { templates, index, ids, at, .. } => {
                0 <= index < templates.len() && 0 <= at < ids.len()
            },
            _ => true,
        }
    }
}

/// A survey of so many candidates at its start.
pub open spec fn survey_start(wanted: nat) -> SurveyView {
    if wanted > 0 {
        SurveyView::Listing { wanted, items: seq![], offset: 0 }
    } else {
        SurveyView::Rights { kept: seq![] }
    }
}

/// A survey that goes on filtering at `at`, or has filtered all.
pub open spec fn filtering_on(
    items: Seq<crate::api::ItemView>,
    at: int,
    kept: Seq<crate::api::ItemView>,
) -> SurveyView {
    if at < items.len() {
        SurveyView::Filtering { items, at, kept }
    } else {
        SurveyView::Rights { kept }
    }
}

/// A survey that goes on counting at `index`, or has counted all.
pub open spec fn counting_on(
    templates: Seq<crate::api::ItemView>,
    index: int,
    limit: u64,
) -> SurveyView {
    if index < templates.len() {
        SurveyView::Usage { templates, index, limit }
    } else {
        SurveyView::Done { templates }
    }
}

/// A survey that has read another page of results.
pub open spec fn listing_on(
    wanted: nat,
    items: Seq<crate::api::ItemView>,
    page: Seq<crate::api::ItemView>,
    next: Option<u64>,
) -> SurveyView {
    let room = wanted - items.len();
    let now = items + page.take(
        if page.len() < room {
            page.len() as int
        } else {
            room
        },
    );
    match next {
        Some(offset) => if page.len() > 0 && now.len() < wanted {
            SurveyView::Listing { wanted, items: now, offset }
        } else {
            filtering_on(now, 0, seq![])
        },
        None => filtering_on(now, 0, seq![]),
    }
}

/// A sum that stays within a machine word.
pub open spec fn capped_sum(a: nat, b: nat) -> nat {
    if a + b > u64::MAX {
        u64::MAX as nat
    } else {
        a + b
    }
}

/// A survey that has read another batch of wikitext, or failed to, with so many
/// invocations found in it.
pub open spec fn contents_on(
    templates: Seq<crate::api::ItemView>,
    index: int,
    limit: u64,
    ids: Seq<u64>,
    at: int,
    count: nat,
    truncated: bool,
    found: nat,
) -> SurveyView {
    let end = crate::batch::batch_end(at, CONTENT_BATCH as int, ids.len() as int);
    let sum = capped_sum(count, found);
    if end < ids.len() {
        SurveyView::Contents { templates, index, limit, ids, at: end, count: sum, truncated }
    } else {
        counting_on(
            super::with_usage(templates, index, Some((sum as u64, truncated))),
            index + 1,
            limit,
        )
    }
}

/// What becomes of a survey when the reply to its request comes in.
///
/// A failure while listing, filtering or asking for rights ends the survey. A
/// template whose pages cannot be listed keeps its count, and a batch of
/// wikitext that cannot be had counts for nothing, so that one bad response
/// does not end the survey.
pub open spec fn survey_after(survey: SurveyView, reply: Result<Json, Failure>) -> SurveyView {
    match (survey, reply) {
        (SurveyView::Listing { wanted, items, .. }, Ok(resp)) => {
            let results = resp.member("query"@).member("querypage"@).member("results"@);
            if results is Array {
                listing_on(
                    wanted,
                    items,
                    crate::api::items_of(results.elements()),
                    resp.member("continue"@).member("qpoffset"@).unsigned(),
                )
            } else {
                SurveyView::Failed {
                    failure: crate::api::FailureView::Unknown("querypage results are missing"@),
                }
            }
        },
        (SurveyView::Filtering { items, at, kept }, Ok(resp)) => {
            let part = crate::batch::batch_of(items, at, TEMPLATEDATA_BATCH as int);
            filtering_on(
                items,
                crate::batch::batch_end(at, TEMPLATEDATA_BATCH as int, items.len() as int),
                kept + super::lacking(
                    part,
                    crate::api::titles_of(part).to_set().intersect(crate::api::titles_in(resp)),
                ),
            )
        },
        (SurveyView::Rights { kept }, Ok(resp)) => {
            counting_on(
                kept,
                0,
                if crate::api::lists_text(
                    resp.member("query"@).member("userinfo"@).member("rights"@).elements(),
                    "apihighlimits"@,
                ) {
                    crate::api::HIGH_LIMIT
                } else {
                    crate::api::LOW_LIMIT
                },
            )
        },
        (SurveyView::Usage { templates, index, limit }, Ok(resp)) => {
            let ids = crate::api::page_ids_of(
                resp.member("query"@).member("pages"@).element(0).member(
                    "transcludedin"@,
                ).elements(),
            );
            let truncated = resp.member("continue"@).member("ticontinue"@).text() is Some;
            if ids.len() > 0 {
                SurveyView::Contents { templates, index, limit, ids, at: 0, count: 0, truncated }
            } else {
                counting_on(
                    super::with_usage(templates, index, Some((0, truncated))),
                    index + 1,
                    limit,
                )
            }
        },
        (SurveyView::Usage { templates, index, limit }, Err(_)) => {
            counting_on(templates, index + 1, limit)
        },
        (
            SurveyView::Contents { templates, index, limit, ids, at, count, truncated },
            Ok(resp),
        ) => {
            contents_on(
                templates,
                index,
                limit,
                ids,
                at,
                count,
                truncated,
                crate::api::invoking_pages(
                    resp,
                    crate::api::without_template_prefix(templates[index].title),
                ).len(),
            )
        },
        (SurveyView::Contents { templates, index, limit, ids, at, count, truncated }, Err(_)) => {
            contents_on(templates, index, limit, ids, at, count, truncated, 0)
        },
        (SurveyView::Done { .. }, _) => survey,
        (SurveyView::Failed { .. }, _) => survey,
        (_, Err(failure)) => SurveyView::Failed { failure: failure@ },
    }
}

/// The parameters of the request that a survey waits for.
pub open spec fn survey_params(survey: SurveyView) -> Option<Seq<(Seq<char>, Seq<char>)>> {
    match survey {
        SurveyView::Listing { offset, .. } => Some(
            crate::api::query_page_params("Mostlinkedtemplates"@, offset as nat),
        ),
        SurveyView::Filtering { items, at, .. } => Some(
            crate::api::templatedata_params(
                crate::api::titles_of(crate::batch::batch_of(items, at, TEMPLATEDATA_BATCH as int)),
            ),
        ),
        SurveyView::Rights { .. } => Some(crate::api::rights_params()),
        SurveyView::Usage { templates, index, limit } => Some(
            crate::api::transclusions_params(templates[index].title, limit as nat),
        ),
        SurveyView::Contents { ids, at, .. } => Some(
            crate::api::page_contents_params(
                crate::batch::batch_of(ids, at, CONTENT_BATCH as int),
            ),
        ),
        SurveyView::Done { .. } => None,
        SurveyView::Failed { .. } => None,
    }
}

/// Whether a survey has ended with these templates, ranked by main-namespace
/// usage and cut to the first [`super::TARGET_COUNT`].
pub open spec fn ends_with(survey: SurveyView, top: Seq<crate::api::ItemView>) -> bool {
    match survey {
        SurveyView::Done { templates } => super::is_top(templates, top),
        _ => false,
    }
}

fn filter_on(items: Vec<QueryPageItem>, at: usize, kept: Vec<QueryPageItem>) -> (survey: Survey)
    requires
        at <= items@.len(),
    ensures
        survey@ == filtering_on(
            crate::api::item_views(items@),
            at as int,
            crate::api::item_views(kept@),
        ),
        survey@.is_valid(),
{
    if at < items.len() {
        Survey::Filtering { items, at, kept }
    } else {
        Survey::Rights { kept }
    }
}

fn count_on(templates: Vec<QueryPageItem>, index: usize, limit: u64) -> (survey: Survey)
    requires
        index <= templates@.len(),
    ensures
        survey@ == counting_on(crate::api::item_views(templates@), index as int, limit),
        survey@.is_valid(),
{
    if index < templates.len() {
        Survey::Usage { templates, index, limit }
    } else {
        Survey::Done { templates }
    }
}

fn count_with(
    templates: Vec<QueryPageItem>,
    index: usize,
    limit: u64,
    usage: Option<(u64, bool)>,
) -> (survey: Survey)
    requires
        index < templates@.len(),
    ensures
        survey@ == counting_on(
            super::with_usage(crate::api::item_views(templates@), index as int, usage),
            index + 1,
            limit,
        ),
        survey@.is_valid(),
{
    let mut templates = templates;
    let ghost before = templates@;
    record_usage(&mut templates, index, usage);
    assert(crate::api::item_views(templates@).len() == crate::api::item_views(before).len());
    assert(templates.len() == templates@.len());
    count_on(templates, index + 1, limit)
}

fn append_items(kept: &mut Vec<QueryPageItem>, more: Vec<QueryPageItem>)
    ensures
        crate::api::item_views(final(kept)@) == crate::api::item_views(old(kept)@)
            + crate::api::item_views(more@),
{
    let ghost added = more@;
    let mut more = more;
    kept.append(&mut more);
    assert(crate::api::item_views(kept@) =~= crate::api::item_views(old(kept)@)
        + crate::api::item_views(added));
}

fn contents_with(
    templates: Vec<QueryPageItem>,
    index: usize,
    limit: u64,
    ids: Vec<u64>,
    at: usize,
    count: u64,
    truncated: bool,
    found: usize,
) -> (survey: Survey)
    requires
        index < templates@.len(),
        at < ids@.len(),
    ensures
        survey@ == contents_on(
            crate::api::item_views(templates@),
            index as int,
            limit,
            ids@,
            at as int,
            count as nat,
            truncated,
            found as nat,
        ),
        survey@.is_valid(),
{
    let end: usize = end_of_batch(at, CONTENT_BATCH, ids.len());
    let sum: u64 = if found as u64 > u64::MAX - count {
        u64::MAX
    } else {
        count + found as u64
    };
    if end < ids.len() {
        Survey::Contents { templates, index, limit, ids, at: end, count: sum, truncated }
    } else {
        count_with(templates, index, limit, Some((sum, truncated)))
    }
}

impl Survey {
    /// Start a survey of so many candidates.
    pub fn start(wanted: usize) -> (survey: Survey)
        ensures
            survey@ == survey_start(wanted as nat),
            survey@.is_valid(),
    {
        let (candidates, offset) = Candidates::new(wanted);
        let ghost none = crate::api::item_views(candidates.items@);
        assert(none =~= seq![]);
        let survey = match offset {
            Some(offset) => Survey::Listing { candidates, offset },
            None => filter_on(candidates.items, 0, Vec::new()),
        };
        assert(crate::api::item_views(seq![]) =~= seq![]);
        survey
    }

    /// The request that the survey waits for, unless it has ended.
    pub fn request(&self) -> (params: Option<Params>)
        requires
            self@.is_valid(),
        ensures
            match params {
                Some(params) => survey_params(self@) == Some(
                    crate::request::param_views(params@),
                ),
                None => survey_params(self@) is None,
            },
    {
        match self {
            Survey::Listing { offset, .. } => Some(query_page_request(QUERY_PAGE, *offset)),
            Survey::Filtering { items, at, .. } => {
                let part = batch(items.as_slice(), *at, TEMPLATEDATA_BATCH);
                assert(crate::api::item_views(part@) =~= crate::batch::batch_of(
                    crate::api::item_views(items@),
                    *at as int,
                    TEMPLATEDATA_BATCH as int,
                ));
                Some(templatedata_request(part))
            },
            Survey::Rights { .. } => Some(rights_request()),
            Survey::Usage { templates, index, limit } => {
                Some(transclusions_request(templates[*index].title.as_str(), *limit))
            },
            Survey::Contents { ids, at, .. } => {
                let part = batch(ids.as_slice(), *at, CONTENT_BATCH);
                Some(page_contents_request(part))
            },
            Survey::Done { .. } => None,
            Survey::Failed { .. } => None,
        }
    }

    /// Whether a transient failure of the request is to be retried first.
    pub fn is_retried(&self) -> (yes: bool)
        ensures
            yes == (self@ is Contents),
    {
        match self {
            Survey::Contents { .. } => true,
            _ => false,
        }
    }

    /// Go on with the reply to the request.
    pub fn answer(self, reply: Result<Json, Failure>) -> (next: Survey)
        requires
            self@.is_valid(),
        ensures
            next@ == survey_after(self@, reply),
            next@.is_valid(),
    {
        match (self, reply) {
            (Survey::Listing { candidates, .. }, Ok(resp)) => list_on(candidates, &resp),
            (Survey::Filtering { items, at, kept }, Ok(resp)) => {
                let part = batch(items.as_slice(), at, TEMPLATEDATA_BATCH);
                let with = titles_with_templatedata(part, &resp);
                let more = without_templatedata(part, &with);
                let end: usize = end_of_batch(at, TEMPLATEDATA_BATCH, items.len());
                proof {
                    assert(crate::api::item_views(part@) =~= crate::batch::batch_of(
                        crate::api::item_views(items@),
                        at as int,
                        TEMPLATEDATA_BATCH as int,
                    ));
                }
                let mut kept = kept;
                append_items(&mut kept, more);
                filter_on(items, end, kept)
            },
            (Survey::Rights { kept }, Ok(resp)) => {
                let limit: u64 = transclusion_limit(has_high_limits(&resp));
                count_on(kept, 0, limit)
            },
            (Survey::Usage { templates, index, limit }, Ok(resp)) => {
                let (ids, truncated) = transcluding_pages(&resp);
                if ids.len() > 0 {
                    Survey::Contents { templates, index, limit, ids, at: 0, count: 0, truncated }
                } else {
                    count_with(templates, index, limit, Some((0, truncated)))
                }
            },
            (Survey::Usage { templates, index, limit }, Err(_)) => {
                count_with(templates, index, limit, None)
            },
            (Survey::Contents { templates, index, limit, ids, at, count, truncated }, Ok(resp)) => {
                let name = strip_template_prefix(templates[index].title.as_str());
                let found: usize = count_direct_invocations(&resp, name.as_str());
                contents_with(templates, index, limit, ids, at, count, truncated, found)
            },
            (Survey::Contents { templates, index, limit, ids, at, count, truncated }, Err(_)) => {
                contents_with(templates, index, limit, ids, at, count, truncated, 0)
            },
            (Survey::Done { templates }, _) => Survey::Done { templates },
            (Survey::Failed { failure }, _) => Survey::Failed { failure },
            (_, Err(failure)) => Survey::Failed { failure },
        }
    }

    /// End a survey that waits for nothing: with the templates that lack
    /// `TemplateData`, ranked by main-namespace usage and cut to the first
    /// [`super::TARGET_COUNT`], or with the failure that ended it.
    pub fn finish(self) -> (result: Result<Vec<QueryPageItem>, Failure>)
        requires
            survey_params(self@) is None,
        ensures
            match result {
                Ok(top) => ends_with(self@, crate::api::item_views(top@)),
                Err(failure) => self@ == (SurveyView::Failed { failure: failure@ }),
            },
    {
        match self {
            Survey::Done { templates } => {
                let mut templates = templates;
                keep_top(&mut templates);
                Ok(templates)
            },
            Survey::Failed { failure } => Err(failure),
            _ => vstd::pervasive::unreached(),
        }
    }
}

fn list_on(candidates: Candidates, resp: &Json) -> (survey: Survey)
    requires
        candidates.items@.len() < candidates.wanted,
    ensures
        forall|offset: u64| survey@ == #[trigger] survey_after(
            SurveyView::Listing {
                wanted: candidates.wanted as nat,
                items: crate::api::item_views(candidates.items@),
                offset,
            },
            Ok(*resp),
        ),
        survey@.is_valid(),
{
    match query_page_results(resp) {
        Ok((page, next)) => {
            let mut candidates = candidates;
            let ghost held = candidates;
            let offset = candidates.add_page(page.as_slice(), next);
            assert(crate::api::item_views(page@).len() == page@.len());
            assert(crate::api::item_views(candidates.items@).len() == candidates.items@.len());
            assert(crate::api::item_views(held.items@).len() == held.items@.len());
            match offset {
                Some(offset) => Survey::Listing { candidates, offset },
                None => {
                    let none: Vec<QueryPageItem> = Vec::new();
                    assert(crate::api::item_views(none@) =~= seq![]);
                    filter_on(candidates.items, 0, none)
                },
            }
        },
        Err(failure) => Survey::Failed { failure },
    }
}

} // verus!
