//! Laws of whole surveys.

use vstd::prelude::*;

use super::survey::SurveyView;
use crate::api::{Failure, ItemView, CONTENT_BATCH};
use crate::json::Json;

verus! {

/// What becomes of a survey when one reply after another comes in.
pub open spec fn survey_after_all(
    survey: SurveyView,
    replies: Seq<Result<Json, Failure>>,
) -> SurveyView
    decreases replies.len(),
{
    if replies.len() == 0 {
        survey
    } else {
        survey_after_all(super::survey::survey_after(survey, replies[0]), replies.skip(1))
    }
}

/// Responses as the replies that they are.
pub open spec fn as_replies(responses: Seq<Json>) -> Seq<Result<Json, Failure>> {
    responses.map_values(|resp: Json| Ok::<Json, Failure>(resp))
}

/// The list of results on a page of the query page.
pub open spec fn results_on(page: Json) -> Json {
    page.member("query"@).member("querypage"@).member("results"@)
}

/// The templates that a page of the query page lists.
pub open spec fn listed_on(page: Json) -> Seq<ItemView> {
    crate::api::items_of(results_on(page).elements())
}

/// The templates that pages of the query page list, in order.
pub open spec fn listed(pages: Seq<Json>) -> Seq<ItemView>
    decreases pages.len(),
{
    if pages.len() == 0 {
        seq![]
    } else {
        listed_on(pages[0]) + listed(pages.skip(1))
    }
}

/// Whether pages are a whole listing of `wanted` templates: each lists some and
/// leads on to the next, until enough are listed, a page lists none, or the
/// query page ends.
pub open spec fn is_whole_listing(pages: Seq<Json>, wanted: int) -> bool
    decreases pages.len(),
{
    if wanted <= 0 {
        pages.len() == 0
    } else {
        &&& pages.len() > 0
        &&& results_on(pages[0]) is Array
        &&& ({
            let found = listed_on(pages[0]).len();
            if 0 < found < wanted && pages[0].member("continue"@).member(
                "qpoffset"@,
            ).unsigned() is Some {
                is_whole_listing(pages.skip(1), wanted - found)
            } else {
                pages.len() == 1
            }
        })
    }
}

/// Whether responses say, batch by batch from `at` on, which items have
/// `TemplateData`: those with the given titles.
pub open spec fn tells_templatedata(
    responses: Seq<Json>,
    items: Seq<ItemView>,
    at: int,
    titles: Set<Seq<char>>,
) -> bool
    decreases responses.len(),
{
    if at >= items.len() {
        responses.len() == 0
    } else {
        &&& responses.len() > 0
        &&& forall|i: int|
            at <= i < crate::batch::batch_end(
                at,
                super::TEMPLATEDATA_BATCH as int,
                items.len() as int,
            ) ==> crate::api::titles_in(responses[0]).contains((#[trigger] items[i]).title)
                == titles.contains(items[i].title)
        &&& tells_templatedata(
            responses.skip(1),
            items,
            crate::batch::batch_end(at, super::TEMPLATEDATA_BATCH as int, items.len() as int),
            titles,
        )
    }
}

/// The replies by which the uses of one template are counted: the list of the
/// pages that transclude it, and the wikitext of these pages batch by batch.
pub struct Tally {
    pub pages: Result<Json, Failure>,
    pub contents: Seq<Result<Json, Failure>>,
}

/// The pages that a response lists as transcluding a template.
pub open spec fn pages_in(resp: Json) -> Seq<u64> {
    crate::api::page_ids_of(
        resp.member("query"@).member("pages"@).element(0).member("transcludedin"@).elements(),
    )
}

/// How many pages in a reply invoke a template. A failure counts for nothing.
pub open spec fn uses_in(title: Seq<char>, reply: Result<Json, Failure>) -> nat {
    match reply {
        Ok(resp) => crate::api::invoking_pages(
            resp,
            crate::api::without_template_prefix(title),
        ).len(),
        Err(_) => 0,
    }
}

/// A count to which the uses in replies are added, within a machine word.
pub open spec fn uses_from(
    title: Seq<char>,
    count: nat,
    replies: Seq<Result<Json, Failure>>,
) -> nat
    decreases replies.len(),
{
    if replies.len() == 0 {
        count
    } else {
        uses_from(
            title,
            super::survey::capped_sum(count, uses_in(title, replies[0])),
            replies.skip(1),
        )
    }
}

impl Tally {
    /// Whether there is a reply for each batch of pages.
    pub open spec fn is_whole(self) -> bool {
        self.contents.len() == match self.pages {
            Ok(resp) => crate::batch::batches_in(
                pages_in(resp).len() as int,
                CONTENT_BATCH as int,
            ),
            Err(_) => 0,
        }
    }

    /// The replies in the order in which they come in.
    pub open spec fn replies(self) -> Seq<Result<Json, Failure>> {
        seq![self.pages] + self.contents
    }

    /// The count of a template, and whether it is truncated. There is none where
    /// the pages could not be listed.
    pub open spec fn usage(self, title: Seq<char>) -> Option<(u64, bool)> {
        match self.pages {
            Ok(resp) => Some(
                (
                    uses_from(title, 0, self.contents) as u64,
                    resp.member("continue"@).member("ticontinue"@).text() is Some,
                ),
            ),
            Err(_) => None,
        }
    }
}

/// The replies of tallies in the order in which they come in.
pub open spec fn tally_replies(tallies: Seq<Tally>) -> Seq<Result<Json, Failure>>
    decreases tallies.len(),
{
    if tallies.len() == 0 {
        seq![]
    } else {
        tallies[0].replies() + tally_replies(tallies.skip(1))
    }
}

/// An item with its usage entered.
pub open spec fn tallied_item(item: ItemView, tally: Tally) -> ItemView {
    match tally.usage(item.title) {
        Some((count, truncated)) => ItemView {
            title: item.title,
            value: item.value,
            main_namespace_transclusions: count,
            main_namespace_truncated: truncated,
        },
        None => item,
    }
}

/// The items with their usages entered.
pub open spec fn tallied(items: Seq<ItemView>, tallies: Seq<Tally>) -> Seq<ItemView> {
    Seq::new(items.len(), |k: int| tallied_item(items[k], tallies[k]))
}

proof fn lemma_after_both(
    survey: SurveyView,
    a: Seq<Result<Json, Failure>>,
    b: Seq<Result<Json, Failure>>,
)
    ensures
        survey_after_all(survey, a + b) == survey_after_all(survey_after_all(survey, a), b),
    decreases a.len(),
{
    if a.len() == 0 {
        assert(a + b =~= b);
    } else {
        assert((a + b)[0] == a[0]);
        assert((a + b).skip(1) =~= a.skip(1) + b);
        lemma_after_both(super::survey::survey_after(survey, a[0]), a.skip(1), b);
    }
}

proof fn lemma_listing(wanted: nat, items: Seq<ItemView>, offset: u64, pages: Seq<Json>)
    requires
        items.len() < wanted,
        is_whole_listing(pages, wanted - items.len()),
    ensures
        survey_after_all(SurveyView::Listing { wanted, items, offset }, as_replies(pages))
            == super::survey::filtering_on(
            super::laws::first_wanted(items + listed(pages), wanted),
            0,
            seq![],
        ),
    decreases pages.len(),
{
    let page = listed_on(pages[0]);
    let room = wanted - items.len();
    let rest = pages.skip(1);
    let next = pages[0].member("continue"@).member("qpoffset"@).unsigned();
    let now = items + page.take(
        if page.len() < room {
            page.len() as int
        } else {
            room
        },
    );
    let replies = as_replies(pages);
    let step = super::survey::survey_after(
        SurveyView::Listing { wanted, items, offset },
        replies[0],
    );
    assert(replies.skip(1) =~= as_replies(rest));
    assert(step == super::survey::listing_on(wanted, items, page, next));
    if 0 < page.len() < room && next is Some {
        assert(page.take(page.len() as int) =~= page);
        lemma_listing(wanted, now, next->0, rest);
        assert(now + listed(rest) =~= items + listed(pages));
    } else {
        assert(rest =~= seq![]);
        reveal_with_fuel(survey_after_all, 2);
        reveal_with_fuel(listed, 2);
        assert(listed(pages) =~= page);
        assert(super::laws::first_wanted(items + page, wanted) =~= now);
        assert(replies.skip(1) =~= seq![]);
    }
}

proof fn lemma_lacking_agrees(items: Seq<ItemView>, a: Set<Seq<char>>, b: Set<Seq<char>>)
    requires
        forall|i: int|
            0 <= i < items.len() ==> a.contains((#[trigger] items[i]).title) == b.contains(
                items[i].title,
            ),
    ensures
        super::lacking(items, a) == super::lacking(items, b),
    decreases items.len(),
{
    reveal(Seq::filter);
    if items.len() > 0 {
        let rest = items.drop_last();
        assert forall|i: int| 0 <= i < rest.len() implies a.contains((#[trigger] rest[i]).title)
            == b.contains(rest[i].title) by {
            assert(rest[i] == items[i]);
        }
        lemma_lacking_agrees(rest, a, b);
        assert(a.contains(items[items.len() - 1].title) == b.contains(
            items[items.len() - 1].title,
        ));
    } else {
        assert(super::lacking(items, a) =~= super::lacking(items, b));
    }
}

proof fn lemma_filtering(
    items: Seq<ItemView>,
    at: int,
    kept: Seq<ItemView>,
    responses: Seq<Json>,
    titles: Set<Seq<char>>,
)
    requires
        0 <= at <= items.len(),
        tells_templatedata(responses, items, at, titles),
    ensures
        survey_after_all(
            super::survey::filtering_on(items, at, kept),
            as_replies(responses),
        ) == (SurveyView::Rights { kept: kept + super::lacking(items.skip(at), titles) }),
    decreases responses.len(),
{
    let replies = as_replies(responses);
    if at < items.len() {
        let size = super::TEMPLATEDATA_BATCH as int;
        let end = crate::batch::batch_end(at, size, items.len() as int);
        let part = crate::batch::batch_of(items, at, size);
        let told = crate::api::titles_of(part).to_set().intersect(
            crate::api::titles_in(responses[0]),
        );
        assert forall|i: int| 0 <= i < part.len() implies told.contains((#[trigger] part[i]).title)
            == titles.contains(part[i].title) by {
            assert(part[i] == items[at + i]);
            assert(crate::api::titles_of(part)[i] == part[i].title);
            assert(crate::api::titles_of(part).contains(part[i].title));
        }
        lemma_lacking_agrees(part, told, titles);
        let now = kept + super::lacking(part, titles);
        assert(replies.skip(1) =~= as_replies(responses.skip(1)));
        lemma_filtering(items, end, now, responses.skip(1), titles);
        assert(items.skip(at) =~= part + items.skip(end));
        Seq::filter_distributes_over_add(
            part,
            items.skip(end),
            |item: ItemView| !titles.contains(item.title),
        );
        assert(now + super::lacking(items.skip(end), titles) =~= kept + super::lacking(
            items.skip(at),
            titles,
        ));
    } else {
        reveal(Seq::filter);
        assert(items.skip(at) =~= seq![]);
        assert(kept + super::lacking(items.skip(at), titles) =~= kept);
    }
}

proof fn lemma_contents(
    templates: Seq<ItemView>,
    index: int,
    limit: u64,
    ids: Seq<u64>,
    at: int,
    count: nat,
    truncated: bool,
    replies: Seq<Result<Json, Failure>>,
)
    requires
        0 <= index < templates.len(),
        0 <= at < ids.len(),
        replies.len() == crate::batch::batches_in(ids.len() - at, CONTENT_BATCH as int),
    ensures
        survey_after_all(
            SurveyView::Contents { templates, index, limit, ids, at, count, truncated },
            replies,
        ) == super::survey::counting_on(
            super::with_usage(
                templates,
                index,
                Some((uses_from(templates[index].title, count, replies) as u64, truncated)),
            ),
            index + 1,
            limit,
        ),
    decreases replies.len(),
{
    let size = CONTENT_BATCH as int;
    let title = templates[index].title;
    let end = crate::batch::batch_end(at, size, ids.len() as int);
    crate::batch::a_batch_taken_leaves_one_less(at, size, ids.len() as int);
    crate::batch::batches_come_with_items(ids.len() - end, size);
    let sum = super::survey::capped_sum(count, uses_in(title, replies[0]));
    if end < ids.len() {
        lemma_contents(templates, index, limit, ids, end, sum, truncated, replies.skip(1));
    } else {
        reveal_with_fuel(survey_after_all, 2);
        reveal_with_fuel(uses_from, 2);
        assert(replies.skip(1) =~= seq![]);
    }
}

proof fn lemma_counting(
    templates: Seq<ItemView>,
    index: int,
    limit: u64,
    tallies: Seq<Tally>,
)
    requires
        0 <= index <= templates.len(),
        tallies.len() == templates.len() - index,
        forall|k: int| 0 <= k < tallies.len() ==> (#[trigger] tallies[k]).is_whole(),
    ensures
        survey_after_all(
            super::survey::counting_on(templates, index, limit),
            tally_replies(tallies),
        ) == (SurveyView::Done {
            templates: templates.take(index) + tallied(templates.skip(index), tallies),
        }),
    decreases tallies.len(),
{
    if index == templates.len() {
        assert(templates.take(index) + tallied(templates.skip(index), tallies) =~= templates);
    } else {
        let tally = tallies[0];
        let rest = tallies.skip(1);
        let title = templates[index].title;
        let usage = tally.usage(title);
        let now = super::with_usage(templates, index, usage);
        assert(tally.is_whole());
        let survey = super::survey::counting_on(templates, index, limit);
        let replies = tally.replies();
        lemma_after_both(survey, replies, tally_replies(rest));
        assert(replies.skip(1) =~= tally.contents);
        assert(survey_after_all(survey, replies) == super::survey::counting_on(
            now,
            index + 1,
            limit,
        )) by {
            reveal_with_fuel(survey_after_all, 2);
            match tally.pages {
                Ok(resp) => {
                    let ids = pages_in(resp);
                    let truncated = resp.member("continue"@).member("ticontinue"@).text() is Some;
                    crate::batch::batches_come_with_items(
                        ids.len() as int,
                        CONTENT_BATCH as int,
                    );
                    if ids.len() > 0 {
                        lemma_contents(
                            templates,
                            index,
                            limit,
                            ids,
                            0,
                            0,
                            truncated,
                            tally.contents,
                        );
                    } else {
                        assert(tally.contents =~= seq![]);
                    }
                },
                Err(_) => {
                    assert(tally.contents =~= seq![]);
                },
            }
        }
        assert forall|k: int| 0 <= k < rest.len() implies (#[trigger] rest[k]).is_whole() by {
            assert(rest[k] == tallies[k + 1]);
        }
        lemma_counting(now, index + 1, limit, rest);
        assert(now.take(index + 1) + tallied(now.skip(index + 1), rest) =~= templates.take(index)
            + tallied(templates.skip(index), tallies));
    }
}

/// The replies to a whole survey in the order in which they come in: the pages
/// of the query page, which templates have `TemplateData`, the rights of the
/// user, and the tallies.
pub open spec fn survey_replies(
    pages: Seq<Json>,
    told: Seq<Json>,
    rights: Json,
    tallies: Seq<Tally>,
) -> Seq<Result<Json, Failure>> {
    as_replies(pages) + (as_replies(told) + (as_replies(seq![rights]) + tally_replies(tallies)))
}

/// The templates that lack `TemplateData`, of the first `wanted` that pages of
/// the query page list.
pub open spec fn candidates_lacking(
    pages: Seq<Json>,
    wanted: nat,
    titles: Set<Seq<char>>,
) -> Seq<ItemView> {
    super::lacking(super::laws::first_wanted(listed(pages), wanted), titles)
}

/// A whole survey ends with the top of the templates that lack `TemplateData`,
/// of the first `wanted` that the query page lists, ranked by the usages that
/// the replies show.
pub proof fn a_survey_ends_with_the_top_templates(
    wanted: nat,
    pages: Seq<Json>,
    told: Seq<Json>,
    titles: Set<Seq<char>>,
    rights: Json,
    tallies: Seq<Tally>,
    top: Seq<ItemView>,
)
    requires
        is_whole_listing(pages, wanted as int),
        tells_templatedata(
            told,
            super::laws::first_wanted(listed(pages), wanted),
            0,
            titles,
        ),
        tallies.len() == candidates_lacking(pages, wanted, titles).len(),
        forall|k: int| 0 <= k < tallies.len() ==> (#[trigger] tallies[k]).is_whole(),
    ensures
        ({
            let end = survey_after_all(
                super::survey::survey_start(wanted),
                survey_replies(pages, told, rights, tallies),
            );
            let templates = tallied(candidates_lacking(pages, wanted, titles), tallies);
            &&& end == (SurveyView::Done { templates })
            &&& super::survey::ends_with(end, top) == super::is_top(templates, top)
        }),
{
    let start = super::survey::survey_start(wanted);
    let items = super::laws::first_wanted(listed(pages), wanted);
    let kept = super::lacking(items, titles);
    let limit = if crate::api::lists_text(
        rights.member("query"@).member("userinfo"@).member("rights"@).elements(),
        "apihighlimits"@,
    ) {
        crate::api::HIGH_LIMIT
    } else {
        crate::api::LOW_LIMIT
    };
    let counts = tally_replies(tallies);
    let asked = as_replies(seq![rights]) + counts;
    assert(survey_after_all(start, as_replies(pages)) == super::survey::filtering_on(
        items,
        0,
        seq![],
    )) by {
        if wanted > 0 {
            lemma_listing(wanted, seq![], 0, pages);
            assert(Seq::<ItemView>::empty() + listed(pages) =~= listed(pages));
        } else {
            assert(as_replies(pages) =~= seq![]);
            assert(items =~= seq![]);
        }
    }
    lemma_after_both(start, as_replies(pages), as_replies(told) + asked);
    lemma_filtering(items, 0, seq![], told, titles);
    assert(items.skip(0) =~= items);
    assert(Seq::<ItemView>::empty() + kept =~= kept);
    lemma_after_both(
        super::survey::filtering_on(items, 0, seq![]),
        as_replies(told),
        asked,
    );
    assert(asked[0] == as_replies(seq![rights])[0]);
    assert(asked.skip(1) =~= counts);
    lemma_counting(kept, 0, limit, tallies);
    assert(kept.take(0) + tallied(kept.skip(0), tallies) =~= tallied(kept, tallies)) by {
        assert(kept.skip(0) =~= kept);
    }
}

} // verus!
