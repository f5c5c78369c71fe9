//! What a survey keeps, ranks and reports.

use vstd::prelude::*;

use super::survey::SurveyView;
use crate::api::{Failure, ItemView};
use crate::json::Json;
use crate::number;

verus! {

/// As many candidates are surveyed as a readable number asks for, and else a
/// thousand.
pub proof fn the_number_of_candidates(text: Seq<char>)
    ensures
        super::candidates_of(None) == 1000,
        match number::parsed(text, usize::MAX as nat) {
            Some(n) => super::candidates_of(Some(text)) == n,
            None => super::candidates_of(Some(text)) == 1000,
        },
{
}

/// How much a survey takes at a time.
pub proof fn limits_of_a_survey()
    ensures
        super::TARGET_COUNT == 50,
        super::CANDIDATE_COUNT == 1000,
        super::TEMPLATEDATA_BATCH == 50,
        super::LOG_STEP == 10,
{
}

/// Templates are kept one by one where their title is not among those given, in
/// their order.
pub proof fn templates_are_kept_one_by_one(
    items: Seq<ItemView>,
    item: ItemView,
    titles: Set<Seq<char>>,
)
    ensures
        super::lacking(seq![], titles).len() == 0,
        super::lacking(items.push(item), titles) == if titles.contains(item.title) {
            super::lacking(items, titles)
        } else {
            super::lacking(items, titles).push(item)
        },
{
    reveal(Seq::filter);
    assert(items.push(item).drop_last() =~= items);
}

/// A count goes to its template alone, and where there is none all stays.
pub proof fn counts_go_to_their_template(
    items: Seq<ItemView>,
    index: int,
    count: u64,
    truncated: bool,
    i: int,
)
    requires
        0 <= index < items.len(),
        0 <= i < items.len(),
    ensures
        ({
            let now = super::with_usage(items, index, Some((count, truncated)));
            &&& now.len() == items.len()
            &&& i != index ==> now[i] == items[i]
            &&& now[index].title == items[index].title
            &&& now[index].value == items[index].value
            &&& now[index].main_namespace_transclusions == count
            &&& now[index].main_namespace_truncated == truncated
            &&& super::with_usage(items, index, None) == items
        }),
{
}

/// Whether a template ranks above another: it has more direct uses in articles,
/// or as many of these and more uses in all.
pub open spec fn ranks_above(a: ItemView, b: ItemView) -> bool {
    if a.main_namespace_transclusions == b.main_namespace_transclusions {
        a.value > b.value
    } else {
        a.main_namespace_transclusions > b.main_namespace_transclusions
    }
}

/// Whether the templates picked are the best, best first, those equally good in
/// their order.
pub open spec fn are_the_best(items: Seq<ItemView>, picks: Seq<int>, top: Seq<ItemView>) -> bool {
    &&& picks.len() == top.len()
    &&& top.len() == if items.len() < 50 {
        items.len() as int
    } else {
        50
    }
    &&& forall|i: int|
        0 <= i < picks.len() ==> 0 <= #[trigger] picks[i] < items.len() && top[i] == items[picks[i]]
    &&& forall|i: int, j: int|
        0 <= i < j < picks.len() ==> ranks_above(items[#[trigger] picks[i]], items[#[trigger] picks[j]])
            || (!ranks_above(items[picks[j]], items[picks[i]]) && picks[i] < picks[j])
    &&& forall|i: int, k: int|
        0 <= i < picks.len() && 0 <= k < items.len() && !picks.contains(k) ==> !ranks_above(
            #[trigger] items[k],
            items[#[trigger] picks[i]],
        )
}

/// What is reported are the fifty best templates, or all where there are fewer.
pub proof fn the_best_templates_are_reported(items: Seq<ItemView>, top: Seq<ItemView>)
    requires
        super::is_top(items, top),
    ensures
        exists|picks: Seq<int>| are_the_best(items, picks, top),
{
    let order = choose|order: Seq<int>|
        #![trigger super::is_ranking(items, order)]
        super::is_ranking(items, order) && top == super::arranged(items, order).take(
            if order.len() < super::TARGET_COUNT {
                order.len() as int
            } else {
                super::TARGET_COUNT as int
            },
        );
    let n = if order.len() < 50 {
        order.len() as int
    } else {
        50
    };
    let picks = order.take(n);
    assert forall|i: int, j: int| 0 <= i < j < picks.len() implies ranks_above(
        items[#[trigger] picks[i]],
        items[#[trigger] picks[j]],
    ) || (!ranks_above(items[picks[j]], items[picks[i]]) && picks[i] < picks[j]) by {
        assert(super::precedes(items, order[i], order[j]));
    }
    assert forall|i: int, k: int|
        0 <= i < picks.len() && 0 <= k < items.len() && !picks.contains(k) implies !ranks_above(
        #[trigger] items[k],
        items[#[trigger] picks[i]],
    ) by {
        super::laws::a_ranking_lists_every_item(items, order, k);
        let j = choose|j: int| 0 <= j < order.len() && order[j] == k;
        if j < n {
            assert(picks[j] == k);
        }
        assert(super::precedes(items, order[i], order[j]));
    }
    assert(are_the_best(items, picks, top));
}

/// A count that may be too low is marked with a plus sign.
pub proof fn low_counts_are_marked(item: ItemView)
    ensures
        ({
            let digits = crate::format::count_text(item.main_namespace_transclusions as nat);
            super::usage_text(item) == if item.main_namespace_truncated {
                digits + seq!['+']
            } else {
                digits
            }
        }),
{
    let digits = crate::format::count_text(item.main_namespace_transclusions as nat);
    assert(digits + seq!['+'] =~= digits.push('+'));
}

/// The row of a template: its rank, its title and its uses.
pub proof fn the_row_of_a_template(item: ItemView, rank: nat)
    ensures
        super::report_row(item, rank) == "|-\n| "@ + number::decimal(rank) + "\n| [["@ + item.title
            + "]]\n| "@ + crate::format::count_text(item.value as nat) + "\n| "@
            + super::usage_text(item) + "\n"@,
{
}

/// Rows follow each other in the order of the templates, numbered from one.
pub proof fn rows_are_numbered(items: Seq<ItemView>, item: ItemView)
    ensures
        super::report_rows(seq![]).len() == 0,
        super::report_rows(items.push(item)) == super::report_rows(items) + super::report_row(
            item,
            items.len() + 1,
        ),
{
    assert(items.push(item).drop_last() =~= items);
}

/// A report has the number of its templates at its head, then their rows, then its
/// end.
pub proof fn a_report_of_a_survey(items: Seq<ItemView>, updated: Seq<char>)
    ensures
        super::report_text(items, updated)
            == "使用数が多いにもかかわらずTemplateDataが存在しないテンプレートの上位"@
            + number::decimal(items.len()) + "件です。\n\n最終更新: "@ + updated
            + " (UTC)\n\n{| class=\"wikitable sortable\"\n|-\n! 順位\n! テンプレート\n! 使用数\n! 標準名前空間での直接使用数\n"@
            + super::report_rows(items) + "|}\n"@,
{
}

/// Counts add up, and stop at the greatest number there is.
pub proof fn counts_add_up(a: nat, b: nat)
    ensures
        a + b <= u64::MAX ==> super::survey::capped_sum(a, b) == a + b,
        a + b > u64::MAX ==> super::survey::capped_sum(a, b) == u64::MAX,
{
}

/// A survey starts by listing templates, from the first one on, where any are
/// wanted.
pub proof fn a_survey_starts_with_the_first_template(wanted: nat)
    ensures
        wanted > 0 ==> super::survey::survey_start(wanted) == (SurveyView::Listing {
            wanted,
            items: seq![],
            offset: 0,
        }),
        wanted == 0 ==> super::survey::survey_start(wanted) == (SurveyView::Rights {
            kept: seq![],
        }),
{
}

/// A failure ends a survey that has not got to counting, with that failure. So
/// does a page of results without results.
pub proof fn failures_end_a_survey(survey: SurveyView, failure: Failure, resp: Json)
    ensures
        survey is Listing || survey is Filtering || survey is Rights
            ==> super::survey::survey_after(survey, Err(failure)) == (SurveyView::Failed {
            failure: failure@,
        }),
        survey is Listing && resp.member("query"@).member("querypage"@).member("results"@) !is Array
            ==> super::survey::survey_after(survey, Ok(resp)) == (SurveyView::Failed {
            failure: crate::api::FailureView::Unknown("querypage results are missing"@),
        }),
{
}

/// A template whose uses cannot be had is passed over, as it is.
pub proof fn uncounted_templates_are_passed_over(
    templates: Seq<ItemView>,
    index: int,
    limit: u64,
    failure: Failure,
)
    requires
        0 <= index < templates.len(),
    ensures
        super::survey::survey_after(SurveyView::Usage { templates, index, limit }, Err(failure))
            == if index + 1 < templates.len() {
            SurveyView::Usage { templates, index: index + 1, limit }
        } else {
            SurveyView::Done { templates }
        },
{
}

/// Uses are asked for by five thousand where the rights say so, else by five
/// hundred.
pub proof fn rights_set_the_limit(kept: Seq<ItemView>, resp: Json)
    requires
        kept.len() > 0,
    ensures
        ({
            let rights = resp.member("query"@).member("userinfo"@).member("rights"@).elements();
            super::survey::survey_after(SurveyView::Rights { kept }, Ok(resp)) == (
            SurveyView::Usage {
                templates: kept,
                index: 0,
                limit: if exists|i: int|
                    0 <= i < rights.len() && (#[trigger] rights[i]).text() == Some(
                        "apihighlimits"@,
                    ) {
                    5000
                } else {
                    500
                },
            })
        }),
{
    let rights = resp.member("query"@).member("userinfo"@).member("rights"@).elements();
    crate::api_laws::texts_are_listed(rights, "apihighlimits"@);
    crate::api_laws::limits_of_the_api();
}

/// What a survey asks for: the list of the most used templates from where it left
/// off, the documentation of fifty templates at a time, its own rights, the uses of
/// a template, and the texts of fifty pages at a time.
pub proof fn requests_of_a_survey(survey: SurveyView)
    ensures
        super::survey::survey_params(survey) == (match survey {
            SurveyView::Listing { offset, .. } => Some(
                crate::api::query_page_params("Mostlinkedtemplates"@, offset as nat),
            ),
            SurveyView::Filtering { items, at, .. } => Some(
                crate::api::templatedata_params(
                    crate::api::titles_of(crate::batch::batch_of(items, at, 50)),
                ),
            ),
            SurveyView::Rights { .. } => Some(crate::api::rights_params()),
            SurveyView::Usage { templates, index, limit } => Some(
                crate::api::transclusions_params(templates[index].title, limit as nat),
            ),
            SurveyView::Contents { ids, at, .. } => Some(
                crate::api::page_contents_params(crate::batch::batch_of(ids, at, 50)),
            ),
            SurveyView::Done { .. } => None,
            SurveyView::Failed { .. } => None,
        }),
{
}

/// The titles of templates are theirs, one by one.
pub proof fn templates_give_their_titles(items: Seq<ItemView>, i: int)
    requires
        0 <= i < items.len(),
    ensures
        crate::api::titles_of(items).len() == items.len(),
        crate::api::titles_of(items)[i] == items[i].title,
{
}

} // verus!
