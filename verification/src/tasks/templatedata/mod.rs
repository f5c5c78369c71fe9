//! Maintenance task: most-transcluded templates that lack `TemplateData`.
//!
//! Collects the most-transcluded templates that have no `TemplateData` from
//! the `Mostlinkedtemplates` query page, and reports the top 50.

use vstd::prelude::*;

use crate::api::{Failure, QueryPageItem};
use crate::format::count;
use crate::moment::Moment;
use crate::number::{decimal_text, parse};
use crate::titles::TitleSet;

pub mod laws;
pub mod ranking_laws;
pub mod run_laws;
pub mod survey;

verus! {

/// How many templates to report.
pub const TARGET_COUNT: usize = 50;

/// How many most-transcluded templates to scan as candidates.
pub const CANDIDATE_COUNT: usize = 1000;

/// Number of titles to check per `templatedata` request.
pub const TEMPLATEDATA_BATCH: usize = 50;

/// After how many counted templates progress is logged.
pub const LOG_STEP: usize = 10;

/// The number of candidates named by a setting, or the default where it names
/// none.
pub open spec fn candidates_of(value: Option<Seq<char>>) -> nat {
    match value {
        Some(text) => match crate::number::parsed(text, usize::MAX as nat) {
            Some(n) => n,
            None => CANDIDATE_COUNT as nat,
        },
        None => CANDIDATE_COUNT as nat,
    }
}

/// Parse a candidate count override, falling back to [`CANDIDATE_COUNT`].
#[must_use]
pub fn candidate_count_from(value: Option<String>) -> (n: usize)
    ensures
        n == candidates_of(crate::text::optional_text(value)),
{
    match value {
        Some(text) => match parse(text.as_str(), usize::MAX as u64) {
            Some(n) => n as usize,
            None => CANDIDATE_COUNT,
        },
        None => CANDIDATE_COUNT,
    }
}

/// The candidates collected so far.
pub struct Candidates {
    /// How many candidates are wanted.
    pub wanted: usize,
    /// The candidates, in the order of the query page.
    pub items: Vec<QueryPageItem>,
}

impl Candidates {
    /// Whether no more than the wanted candidates are held.
    pub open spec fn is_valid(self) -> bool {
        self.items@.len() <= self.wanted
    }

    /// Start collecting, saying from which offset to read the query page.
    pub fn new(wanted: usize) -> (start: (Candidates, Option<u64>))
        ensures
            start.0.is_valid(),
            start.0.wanted == wanted,
            start.0.items@.len() == 0,
            start.1 == (if wanted > 0 {
                Some(0u64)
            } else {
                None
            }),
    {
        let offset: Option<u64> = if wanted > 0 {
            Some(0)
        } else {
            None
        };
        (Candidates { wanted, items: Vec::new() }, offset)
    }

    /// Add one page of results, as many as are still wanted, and say from which
    /// offset to read on. Reading ends where enough candidates are held, where
    /// a page is empty, and where the query page ends.
    pub fn add_page(&mut self, page: &[QueryPageItem], next: Option<u64>) -> (offset: Option<u64>)
        requires
            old(self).is_valid(),
        ensures
            final(self).is_valid(),
            final(self).wanted == old(self).wanted,
            ({
                let room = old(self).wanted - old(self).items@.len();
                let taken = if page@.len() < room {
                    page@.len() as int
                } else {
                    room
                };
                crate::api::item_views(final(self).items@) == crate::api::item_views(
                    old(self).items@,
                ) + crate::api::item_views(page@).take(taken)
            }),
            offset == (if page@.len() == 0 || final(self).items@.len() >= final(self).wanted {
                None
            } else {
                next
            }),
    {
        let ghost before = self.items@;
        let ghost views = crate::api::item_views(page@);
        let mut i: usize = 0;
        assert(crate::api::item_views(self.items@) =~= crate::api::item_views(before) + views.take(
            0,
        ));
        while i < page.len() && self.items.len() < self.wanted
            invariant
                i <= page@.len(),
                self.is_valid(),
                self.wanted == old(self).wanted,
                self.items@.len() == before.len() + i,
                before == old(self).items@,
                views == crate::api::item_views(page@),
                crate::api::item_views(self.items@) == crate::api::item_views(before) + views.take(
                    i as int,
                ),
            decreases page@.len() - i,
        {
            let item = page[i].clone();
            let ghost held = self.items@;
            self.items.push(item);
            i += 1;
            assert(crate::api::item_views(self.items@) =~= crate::api::item_views(held).push(item@));
            assert(views.take(i as int) =~= views.take(i - 1).push(views[i - 1]));
            assert(crate::api::item_views(before) + views.take(i as int) =~= (
            crate::api::item_views(before) + views.take(i - 1)).push(item@));
        }
        if page.len() == 0 || self.items.len() >= self.wanted {
            None
        } else {
            next
        }
    }
}

/// The items whose titles are not in the set, in order.
pub open spec fn lacking(
    items: Seq<crate::api::ItemView>,
    titles: Set<Seq<char>>,
) -> Seq<crate::api::ItemView> {
    items.filter(|item: crate::api::ItemView| !titles.contains(item.title))
}

/// Keep the templates that lack `TemplateData`.
pub fn without_templatedata(templates: &[QueryPageItem], with_templatedata: &TitleSet) -> (kept: Vec<
    QueryPageItem,
>)
    ensures
        crate::api::item_views(kept@) == lacking(
            crate::api::item_views(templates@),
            with_templatedata@,
        ),
{
    let ghost views = crate::api::item_views(templates@);
    let mut kept: Vec<QueryPageItem> = Vec::new();
    let mut i: usize = 0;
    proof {
        reveal(Seq::filter);
        assert(crate::api::item_views(kept@) =~= lacking(views.take(0), with_templatedata@));
    }
    while i < templates.len()
        invariant
            i <= templates@.len(),
            views == crate::api::item_views(templates@),
            crate::api::item_views(kept@) == lacking(views.take(i as int), with_templatedata@),
        decreases templates@.len() - i,
    {
        proof {
            reveal(Seq::filter);
            assert(views.take(i + 1).drop_last() =~= views.take(i as int));
        }
        let ghost before = kept@;
        if !with_templatedata.contains(templates[i].title.as_str()) {
            let item = templates[i].clone();
            kept.push(item);
            assert(crate::api::item_views(kept@) =~= crate::api::item_views(before).push(item@));
        }
        i += 1;
    }
    assert(views.take(i as int) =~= views);
    kept
}

/// The items with the main-namespace usage of one of them entered.
pub open spec fn with_usage(
    items: Seq<crate::api::ItemView>,
    index: int,
    usage: Option<(u64, bool)>,
) -> Seq<crate::api::ItemView> {
    match usage {
        Some((count, truncated)) => items.update(
            index,
            crate::api::ItemView {
                title: items[index].title,
                value: items[index].value,
                main_namespace_transclusions: count,
                main_namespace_truncated: truncated,
            },
        ),
        None => items,
    }
}

/// Enter the main-namespace usage of one template. A count that failed leaves
/// the template as it is.
pub fn record_usage(templates: &mut Vec<QueryPageItem>, index: usize, usage: Option<(u64, bool)>)
    requires
        index < old(templates)@.len(),
    ensures
        crate::api::item_views(final(templates)@) == with_usage(
            crate::api::item_views(old(templates)@),
            index as int,
            usage,
        ),
{
    if let Some((count, truncated)) = usage {
        let mut item = templates[index].clone();
        item.main_namespace_transclusions = count;
        item.main_namespace_truncated = truncated;
        templates.set(index, item);
    }
    assert(crate::api::item_views(templates@) =~= with_usage(
        crate::api::item_views(old(templates)@),
        index as int,
        usage,
    ));
}

/// Whether an item ranks above another: by main-namespace usage, then by total
/// usage.
pub open spec fn outranks(a: crate::api::ItemView, b: crate::api::ItemView) -> bool {
    a.main_namespace_transclusions > b.main_namespace_transclusions || (
    a.main_namespace_transclusions == b.main_namespace_transclusions && a.value > b.value)
}

/// Whether item `i` comes before item `j` in the ranking; items of equal rank
/// keep their order.
pub open spec fn precedes(items: Seq<crate::api::ItemView>, i: int, j: int) -> bool {
    outranks(items[i], items[j]) || (!outranks(items[j], items[i]) && i < j)
}

/// Whether `order` lists the indices of `items`, each once, in their ranking.
pub open spec fn is_ranking(items: Seq<crate::api::ItemView>, order: Seq<int>) -> bool {
    &&& order.len() == items.len()
    &&& forall|i: int| 0 <= i < order.len() ==> 0 <= #[trigger] order[i] < items.len()
    &&& forall|i: int, j: int|
        0 <= i < j < order.len() ==> precedes(items, #[trigger] order[i], #[trigger] order[j])
}

/// The items in the given order.
pub open spec fn arranged(
    items: Seq<crate::api::ItemView>,
    order: Seq<int>,
) -> Seq<crate::api::ItemView> {
    order.map_values(|k: int| items[k])
}

fn ranks_above(a: &QueryPageItem, b: &QueryPageItem) -> (yes: bool)
    ensures
        yes == outranks(a@, b@),
{
    a.main_namespace_transclusions > b.main_namespace_transclusions || (
    a.main_namespace_transclusions == b.main_namespace_transclusions && a.value > b.value)
}

/// Sort templates by main-namespace direct transclusion count descending,
/// tie-breaking by total transclusion count descending.
pub fn sort_by_main_namespace_count(templates: &mut Vec<QueryPageItem>)
    ensures
        exists|order: Seq<int>|
            #![trigger is_ranking(crate::api::item_views(old(templates)@), order)]
            is_ranking(crate::api::item_views(old(templates)@), order) && crate::api::item_views(
                final(templates)@,
            ) == arranged(crate::api::item_views(old(templates)@), order),
{
    let ghost items = crate::api::item_views(templates@);
    let n: usize = templates.len();
    let ghost mut order: Seq<int> = Seq::new(n as nat, |k: int| k);
    let mut i: usize = 0;
    assert(crate::api::item_views(templates@) =~= arranged(items, order));
    while i < n
        invariant
            i <= n,
            n == templates@.len(),
            n == items.len(),
            n == order.len(),
            items == crate::api::item_views(old(templates)@),
            crate::api::item_views(templates@) == arranged(items, order),
            forall|k: int| 0 <= k < i ==> 0 <= #[trigger] order[k] < i,
            forall|k: int| i <= k < n ==> #[trigger] order[k] == k,
            forall|j: int, k: int|
                0 <= j < k < i ==> precedes(items, #[trigger] order[j], #[trigger] order[k]),
        decreases n - i,
    {
        let mut place: usize = 0;
        while place < i && !ranks_above(&templates[i], &templates[place])
            invariant
                place <= i < n,
                n == templates@.len(),
                forall|k: int|
                    0 <= k < place ==> !outranks(
                        templates@[i as int]@,
                        (#[trigger] templates@[k])@,
                    ),
            decreases i - place,
        {
            place += 1;
        }
        let ghost held = templates@;
        let ghost prior = order;
        proof {
            assert forall|k: int| 0 <= k < n implies (#[trigger] held[k])@ == items[prior[k]] by {
                assert(crate::api::item_views(held)[k] == arranged(items, prior)[k]);
            }
            order = prior.remove(i as int).insert(place as int, i as int);
        }
        let item = templates.remove(i);
        templates.insert(place, item);
        proof {
            assert forall|k: int| 0 <= k < n implies #[trigger] crate::api::item_views(
                templates@,
            )[k] == arranged(items, order)[k] by {
                if k < place {
                    assert(templates@[k] == held[k]);
                    assert(order[k] == prior[k]);
                } else if k == place {
                    assert(templates@[k] == held[i as int]);
                    assert(order[k] == i);
                } else if k <= i {
                    assert(templates@[k] == held[k - 1]);
                    assert(order[k] == prior[k - 1]);
                } else {
                    assert(templates@[k] == held[k]);
                    assert(order[k] == prior[k]);
                }
            }
            assert(crate::api::item_views(templates@) =~= arranged(items, order));
            // The item outranks the one at its place, hence all that follow it.
            assert forall|k: int| place <= k < i implies precedes(
                items,
                i as int,
                #[trigger] prior[k],
            ) by {
                assert(outranks(items[prior[i as int]], items[prior[place as int]]));
                if k > place {
                    assert(precedes(items, prior[place as int], prior[k]));
                }
            }
            assert forall|k: int| 0 <= k < place implies precedes(
                items,
                #[trigger] prior[k],
                i as int,
            ) by {
                assert(!outranks(held[i as int]@, held[k]@));
            }
            assert forall|j: int, k: int| 0 <= j < k < i + 1 implies precedes(
                items,
                #[trigger] order[j],
                #[trigger] order[k],
            ) by {
                let a = if j < place {
                    prior[j]
                } else if j == place {
                    i as int
                } else {
                    prior[j - 1]
                };
                let b = if k < place {
                    prior[k]
                } else if k == place {
                    i as int
                } else {
                    prior[k - 1]
                };
                assert(order[j] == a && order[k] == b);
            }
            assert forall|k: int| 0 <= k < i + 1 implies 0 <= #[trigger] order[k] < i + 1 by {
                if k < place {
                    assert(order[k] == prior[k]);
                } else if k > place {
                    assert(order[k] == prior[k - 1]);
                }
            }
            assert forall|k: int| i + 1 <= k < n implies #[trigger] order[k] == k by {
                assert(order[k] == prior[k]);
            }
        }
        i += 1;
    }
    assert(is_ranking(items, order));
}

/// Whether items are the first [`TARGET_COUNT`] of others in their ranking.
pub open spec fn is_top(items: Seq<crate::api::ItemView>, top: Seq<crate::api::ItemView>) -> bool {
    exists|order: Seq<int>|
        #![trigger is_ranking(items, order)]
        is_ranking(items, order) && top == arranged(items, order).take(
            if order.len() < TARGET_COUNT {
                order.len() as int
            } else {
                TARGET_COUNT as int
            },
        )
}

/// Rank the templates and keep the first [`TARGET_COUNT`].
pub fn keep_top(templates: &mut Vec<QueryPageItem>)
    ensures
        is_top(
            crate::api::item_views(old(templates)@),
            crate::api::item_views(final(templates)@),
        ),
{
    let ghost items = crate::api::item_views(templates@);
    sort_by_main_namespace_count(templates);
    let ghost sorted = templates@;
    let ghost order = choose|order: Seq<int>|
        #![trigger is_ranking(items, order)]
        is_ranking(items, order) && crate::api::item_views(sorted) == arranged(items, order);
    assert(sorted.len() == crate::api::item_views(sorted).len());
    if templates.len() > TARGET_COUNT {
        templates.truncate(TARGET_COUNT);
    }
    assert(crate::api::item_views(templates@) =~= arranged(items, order).take(
        if order.len() < TARGET_COUNT {
            order.len() as int
        } else {
            TARGET_COUNT as int
        },
    ));
}

/// Format a number with thousands separators, e.g. `1013254` -> `1,013,254`.
#[must_use]
pub fn format_count(n: u64) -> (text: String)
    ensures
        text@ == crate::format::count_text(n as nat),
{
    count(n)
}

/// The main-namespace usage of a template, with `+` where it was truncated.
pub open spec fn usage_text(item: crate::api::ItemView) -> Seq<char> {
    let digits = crate::format::count_text(item.main_namespace_transclusions as nat);
    if item.main_namespace_truncated {
        digits.push('+')
    } else {
        digits
    }
}

/// Format the main-namespace direct transclusion count, appending `+` when
/// the count was truncated at the API limit.
#[must_use]
pub fn format_main_namespace_count(template: &QueryPageItem) -> (text: String)
    ensures
        text@ == usage_text(template@),
{
    let mut text = format_count(template.main_namespace_transclusions);
    if template.main_namespace_truncated {
        text.push('+');
    }
    text
}

/// The table row of the template at the given rank.
pub open spec fn report_row(item: crate::api::ItemView, rank: nat) -> Seq<char> {
    "|-\n| "@ + crate::number::decimal(rank) + "\n| [["@ + item.title + "]]\n| "@
        + crate::format::count_text(item.value as nat) + "\n| "@ + usage_text(item) + "\n"@
}

/// The table rows of the templates, ranked from one on.
pub open spec fn report_rows(items: Seq<crate::api::ItemView>) -> Seq<char>
    decreases items.len(),
{
    if items.len() == 0 {
        seq![]
    } else {
        report_rows(items.drop_last()) + report_row(items.last(), items.len())
    }
}

/// What stands above the table rows.
pub open spec fn report_head(n: nat, updated: Seq<char>) -> Seq<char> {
    "使用数が多いにもかかわらずTemplateDataが存在しないテンプレートの上位"@ + crate::number::decimal(n)
        + "件です。\n\n最終更新: "@ + updated
        + " (UTC)\n\n{| class=\"wikitable sortable\"\n|-\n! 順位\n! テンプレート\n! 使用数\n! 標準名前空間での直接使用数\n"@
}

/// The wikitext of the report.
pub open spec fn report_text(items: Seq<crate::api::ItemView>, updated: Seq<char>) -> Seq<char> {
    report_head(items.len(), updated) + report_rows(items) + "|}\n"@
}

/// Render the report with the update time as text.
pub fn render_report(templates: &[QueryPageItem], updated: &str) -> (out: String)
    ensures
        out@ == report_text(crate::api::item_views(templates@), updated@),
{
    let ghost items = crate::api::item_views(templates@);
    let mut out = "使用数が多いにもかかわらずTemplateDataが存在しないテンプレートの上位".to_owned();
    out.append(decimal_text(templates.len() as u64).as_str());
    out.append("件です。\n\n最終更新: ");
    out.append(updated);
    out.append(
        " (UTC)\n\n{| class=\"wikitable sortable\"\n|-\n! 順位\n! テンプレート\n! 使用数\n! 標準名前空間での直接使用数\n",
    );
    let ghost head = report_head(items.len(), updated@);
    assert(out@ == head);
    let mut i: usize = 0;
    assert(out@ =~= head + report_rows(items.take(0)));
    while i < templates.len()
        invariant
            i <= templates@.len(),
            items == crate::api::item_views(templates@),
            out@ == head + report_rows(items.take(i as int)),
        decreases templates@.len() - i,
    {
        let template = &templates[i];
        let ghost before = out@;
        out.append("|-\n| ");
        out.append(decimal_text(i as u64 + 1).as_str());
        out.append("\n| [[");
        out.append(template.title.as_str());
        out.append("]]\n| ");
        out.append(format_count(template.value).as_str());
        out.append("\n| ");
        out.append(format_main_namespace_count(template).as_str());
        out.append("\n");
        i += 1;
        proof {
            let seen = items.take(i as int);
            assert(seen.drop_last() =~= items.take(i - 1));
            assert(seen.last() == template@);
            assert(out@ =~= before + report_row(template@, i as nat));
            assert(out@ =~= head + report_rows(seen));
        }
    }
    assert(items.take(i as int) =~= items);
    out.append("|}\n");
    out
}

/// Build the full wikitext of the maintenance report page.
///
/// Produces a sortable wikitable listing each template with its rank and
/// transclusion count, prefixed with an explanatory header and the update
/// timestamp.
#[must_use]
pub fn build_report(templates: &[QueryPageItem], updated: Moment) -> (out: String)
    requires
        updated.is_valid(),
    ensures
        out@ == report_text(
            crate::api::item_views(templates@),
            crate::moment::utc_text(updated.secs, updated.nanos, "%Y-%m-%d %H:%M"@),
        ),
{
    let text = updated.minute_text();
    render_report(templates, text.as_str())
}

/// The report of one update, or an error where there is nothing to report.
pub fn update(templates: &[QueryPageItem], updated: Moment) -> (report: Result<String, Failure>)
    requires
        updated.is_valid(),
    ensures
        match report {
            Ok(out) => templates@.len() > 0 && out@ == report_text(
                crate::api::item_views(templates@),
                crate::moment::utc_text(updated.secs, updated.nanos, "%Y-%m-%d %H:%M"@),
            ),
            Err(failure) => {
                &&& templates@.len() == 0
                &&& failure is Unknown
                &&& failure->Unknown_0@ == "no templates without TemplateData found"@
            },
        },
{
    if templates.len() == 0 {
        return Err(Failure::Unknown("no templates without TemplateData found".to_owned()));
    }
    Ok(build_report(templates, updated))
}

} // verus!
