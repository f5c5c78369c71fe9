//! Laws of the template ranking.

use vstd::prelude::*;

verus! {

proof fn lemma_ranking_is_distinct(items: Seq<crate::api::ItemView>, order: Seq<int>)
    requires
        super::is_ranking(items, order),
    ensures
        order.no_duplicates(),
{
    assert forall|i: int, j: int|
        0 <= i < order.len() && 0 <= j < order.len() && i != j implies order[i] != order[j] by {
        if i < j {
            assert(super::precedes(items, order[i], order[j]));
        } else {
            assert(super::precedes(items, order[j], order[i]));
        }
    }
}

/// A ranking leaves no item out.
pub proof fn a_ranking_lists_every_item(
    items: Seq<crate::api::ItemView>,
    order: Seq<int>,
    k: int,
)
    requires
        super::is_ranking(items, order),
        0 <= k < items.len(),
    ensures
        order.contains(k),
        super::arranged(items, order).contains(items[k]),
{
    let n = items.len() as int;
    let indices = vstd::set_lib::set_int_range(0, n);
    lemma_ranking_is_distinct(items, order);
    order.unique_seq_to_set();
    vstd::set_lib::lemma_int_range(0, n);
    assert forall|x: int| order.to_set().contains(x) implies indices.contains(x) by {
        let i = order.index_of(x);
        assert(0 <= order[i] < items.len());
    }
    assert(order.to_set().subset_of(indices));
    vstd::set_lib::lemma_subset_equality(order.to_set(), indices);
    assert(order.to_set().contains(k));
    let i = order.index_of(k);
    assert(super::arranged(items, order)[i] == items[k]);
}

/// A ranking lists no item twice.
pub proof fn a_ranking_lists_no_item_twice(
    items: Seq<crate::api::ItemView>,
    order: Seq<int>,
    i: int,
    j: int,
)
    requires
        super::is_ranking(items, order),
        0 <= i < j < order.len(),
    ensures
        order[i] != order[j],
{
    assert(super::precedes(items, order[i], order[j]));
}

/// There is only one ranking of given items, so sorting has one result.
pub proof fn rankings_agree(items: Seq<crate::api::ItemView>, a: Seq<int>, b: Seq<int>)
    requires
        super::is_ranking(items, a),
        super::is_ranking(items, b),
    ensures
        a == b,
{
    lemma_rankings_agree_before(items, a, b, items.len() as int);
    assert(a =~= b);
}

proof fn lemma_rankings_agree_before(
    items: Seq<crate::api::ItemView>,
    a: Seq<int>,
    b: Seq<int>,
    n: int,
)
    requires
        super::is_ranking(items, a),
        super::is_ranking(items, b),
        0 <= n <= items.len(),
    ensures
        forall|i: int| 0 <= i < n ==> #[trigger] a[i] == b[i],
    decreases n,
{
    if n > 0 {
        lemma_rankings_agree_before(items, a, b, n - 1);
        let i = n - 1;
        let x = a[i];
        let y = b[i];
        if x != y {
            assert(0 <= x < items.len() && 0 <= y < items.len());
            a_ranking_lists_every_item(items, b, x);
            a_ranking_lists_every_item(items, a, y);
            let p = b.index_of(x);
            let q = a.index_of(y);
            lemma_ranking_is_distinct(items, a);
            lemma_ranking_is_distinct(items, b);
            if p < i {
                assert(a[p] == b[p]);
            }
            if q < i {
                assert(a[q] == b[q]);
            }
            assert(super::precedes(items, b[i], b[p]));
            assert(super::precedes(items, a[i], a[q]));
        }
    }
}

/// In a ranking no item comes after one that it outranks. What a cut leaves out
/// therefore outranks nothing that is kept.
pub proof fn ranked_items_descend(
    items: Seq<crate::api::ItemView>,
    order: Seq<int>,
    i: int,
    j: int,
)
    requires
        super::is_ranking(items, order),
        0 <= i < j < items.len(),
    ensures
        ({
            let ranked = super::arranged(items, order);
            &&& !super::outranks(ranked[j], ranked[i])
            &&& ranked[i].main_namespace_transclusions >= ranked[j].main_namespace_transclusions
        }),
{
    assert(super::precedes(items, order[i], order[j]));
}

/// Items of equal rank keep their order.
pub proof fn equal_items_keep_their_order(
    items: Seq<crate::api::ItemView>,
    order: Seq<int>,
    i: int,
    j: int,
)
    requires
        super::is_ranking(items, order),
        0 <= i < j < order.len(),
        !super::outranks(items[order[i]], items[order[j]]),
    ensures
        order[i] < order[j],
{
    assert(super::precedes(items, order[i], order[j]));
}

/// Ranking what is ranked changes nothing.
pub proof fn ranking_twice(items: Seq<crate::api::ItemView>, order: Seq<int>, again: Seq<int>)
    requires
        super::is_ranking(items, order),
        super::is_ranking(super::arranged(items, order), again),
    ensures
        super::arranged(super::arranged(items, order), again)
            == super::arranged(items, order),
{
    let ranked = super::arranged(items, order);
    let same = Seq::new(items.len(), |k: int| k);
    assert forall|i: int, j: int| 0 <= i < j < same.len() implies super::precedes(
        ranked,
        #[trigger] same[i],
        #[trigger] same[j],
    ) by {
        ranked_items_descend(items, order, i, j);
    }
    assert(super::is_ranking(ranked, same));
    rankings_agree(ranked, again, same);
    assert(super::arranged(ranked, same) =~= ranked);
}

/// The first items, as many as are wanted.
pub open spec fn first_wanted<T>(items: Seq<T>, wanted: nat) -> Seq<T> {
    if items.len() < wanted {
        items
    } else {
        items.take(wanted as int)
    }
}

/// Adding page after page collects the first items of the query page, as many
/// as are wanted.
pub proof fn pages_give_the_first_items<T>(items: Seq<T>, page: Seq<T>, wanted: nat)
    ensures
        ({
            let held = first_wanted(items, wanted);
            let room = wanted - held.len();
            first_wanted(items + page, wanted) == held + page.take(
                if page.len() < room {
                    page.len() as int
                } else {
                    room
                },
            )
        }),
{
    let held = first_wanted(items, wanted);
    let room = wanted - held.len();
    assert(first_wanted(items + page, wanted) =~= held + page.take(
        if page.len() < room {
            page.len() as int
        } else {
            room
        },
    ));
}

/// How much of a survey is left: the stage, what the stage has still to do, and
/// what the step under way has still to do.
pub open spec fn work_left(survey: super::survey::SurveyView) -> (nat, nat, nat) {
    match survey {
        super::survey::SurveyView::Listing { wanted, items, .. } => {
            (4, (wanted - items.len()) as nat, 0)
        },
        super::survey::SurveyView::Filtering { items, at, .. } => (3, (items.len() - at) as nat, 0),
        super::survey::SurveyView::Rights { .. } => (2, 0, 0),
        super::survey::SurveyView::Usage { templates, index, .. } => {
            (1, (2 * (templates.len() - index) + 1) as nat, 0)
        },
        super::survey::SurveyView::Contents { templates, index, ids, at, .. } => {
            (1, (2 * (templates.len() - index)) as nat, (ids.len() - at) as nat)
        },
        super::survey::SurveyView::Done { .. } => (0, 0, 0),
        super::survey::SurveyView::Failed { .. } => (0, 0, 0),
    }
}

/// Every reply, whether it is a response or a failure, brings a survey nearer
/// to its end. So a survey makes finitely many requests.
pub proof fn every_reply_brings_a_survey_nearer_its_end(
    survey: super::survey::SurveyView,
    reply: Result<crate::json::Json, crate::api::Failure>,
)
    requires
        survey.is_valid(),
        super::survey::survey_params(survey) is Some,
    ensures
        ({
            let before = work_left(survey);
            let now = work_left(super::survey::survey_after(survey, reply));
            ||| now.0 < before.0
            ||| now.0 == before.0 && now.1 < before.1
            ||| now.0 == before.0 && now.1 == before.1 && now.2 < before.2
        }),
{
}

} // verus!
