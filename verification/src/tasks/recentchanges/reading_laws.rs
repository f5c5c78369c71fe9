//! What is read from recent changes, and what reports on them say.

use vstd::prelude::*;

use super::pass::PassView;
use super::EditView;
use crate::api::Failure;
use crate::json::Json;
use crate::moment::Moment;
use crate::text;
use crate::text_laws;

verus! {

/// The tracking parameter, character by character.
pub open spec fn parameter() -> Seq<char> {
    seq![
        'u', 't', 'm', '_', 's', 'o', 'u', 'r', 'c', 'e', '=', 'c', 'h', 'a', 't', 'g', 'p', 't',
        '.', 'c', 'o', 'm',
    ]
}

/// Whether a text stands at `i` up to ASCII case.
pub open spec fn stands_loosely(s: Seq<char>, part: Seq<char>, i: int) -> bool {
    &&& 0 <= i
    &&& i + part.len() <= s.len()
    &&& forall|k: int| 0 <= k < part.len() ==> text_laws::alike(#[trigger] part[k], s[i + k])
}

proof fn lemma_parameter()
    ensures
        "utm_source=chatgpt.com"@ == parameter(),
        parameter().len() == 22,
        forall|k: int| 0 <= k < 22 ==> !('A' <= #[trigger] parameter()[k] && parameter()[k] <= 'Z'),
{
    reveal_strlit("utm_source=chatgpt.com");
    assert("utm_source=chatgpt.com"@.len() == 22);
    assert("utm_source=chatgpt.com"@ =~= parameter());
}

proof fn lemma_loosely(s: Seq<char>, part: Seq<char>, i: int)
    requires
        forall|k: int| 0 <= k < part.len() ==> !('A' <= #[trigger] part[k] && part[k] <= 'Z'),
    ensures
        text::occurs_at(text::lower(s), part, i) == stands_loosely(s, part, i),
{
    let low = text::lower(s);
    text_laws::occurring_is_standing(low, part, i);
    if text_laws::stands_in(low, part, i) {
        assert forall|k: int| 0 <= k < part.len() implies text_laws::alike(
            #[trigger] part[k],
            s[i + k],
        ) by {
            assert(low[i + k] == text::lower_char(s[i + k]));
            text_laws::case_of_a_character(s[i + k]);
        }
    }
    if stands_loosely(s, part, i) {
        assert forall|k: int| 0 <= k < part.len() implies #[trigger] part[k] == low[i + k] by {
            assert(text_laws::alike(part[k], s[i + k]));
            text_laws::case_of_a_character(s[i + k]);
            lemma_lower_alike(s[i + k], part[k]);
        }
    }
}

proof fn lemma_lower_alike(c: char, d: char)
    requires
        text_laws::alike(d, c),
        !('A' <= d && d <= 'Z'),
    ensures
        text::lower_char(c) == d,
{
}

/// A text mentions the parameter exactly where its characters stand somewhere in
/// it, one after another and in any case.
pub proof fn mentioning_the_parameter(s: Seq<char>)
    ensures
        super::mentions_utm(s) == exists|i: int| #[trigger] stands_loosely(s, parameter(), i),
{
    lemma_parameter();
    if super::mentions_utm(s) {
        let i = choose|i: int| text::occurs_at(text::lower(s), parameter(), i);
        lemma_loosely(s, parameter(), i);
    }
    if exists|i: int| #[trigger] stands_loosely(s, parameter(), i) {
        let i = choose|i: int| #[trigger] stands_loosely(s, parameter(), i);
        lemma_loosely(s, parameter(), i);
    }
}

/// A diff in which `utm_source=` does not stand, in any case, adds nothing, and
/// neither does one without `chatgpt.com`.
pub proof fn half_of_the_parameter_is_not_enough(body: Seq<char>)
    requires
        (forall|i: int| !#[trigger] stands_loosely(body, parameter().take(11), i)) || (forall|i: int|
            !#[trigger] stands_loosely(body, parameter().skip(11), i)),
    ensures
        !super::mentions_utm(body),
        !super::adds_utm(body),
{
    lemma_parameter();
    mentioning_the_parameter(body);
    if super::mentions_utm(body) {
        let i = choose|i: int| #[trigger] stands_loosely(body, parameter(), i);
        assert forall|k: int| 0 <= k < 11 implies text_laws::alike(
            #[trigger] parameter().take(11)[k],
            body[i + k],
        ) by {
            assert(text_laws::alike(parameter()[k], body[i + k]));
        }
        assert(stands_loosely(body, parameter().take(11), i));
        assert forall|k: int| 0 <= k < 11 implies text_laws::alike(
            #[trigger] parameter().skip(11)[k],
            body[i + 11 + k],
        ) by {
            assert(text_laws::alike(parameter()[k + 11], body[i + (k + 11)]));
        }
        assert(stands_loosely(body, parameter().skip(11), i + 11));
    }
    super::laws::no_parameter_no_match(body);
}

/// What marks an added line in a diff, character by character.
pub open spec fn line_mark() -> Seq<char> {
    seq![
        'c', 'l', 'a', 's', 's', '=', '"', 'd', 'i', 'f', 'f', '-', 'a', 'd', 'd', 'e', 'd', 'l',
        'i', 'n', 'e',
    ]
}

/// What ends a line in a diff, character by character.
pub open spec fn line_end() -> Seq<char> {
    seq!['<', '/', 'd', 'i', 'v', '>']
}

proof fn lemma_marks()
    ensures
        "class=\"diff-addedline"@ == line_mark(),
        "</div>"@ == line_end(),
        line_mark().len() == 21,
        line_end().len() == 6,
        line_mark()[0] == 'c',
        forall|m: int| 1 <= m < 21 ==> #[trigger] line_mark()[m] != 'c',
{
    reveal_strlit("class=\"diff-addedline");
    reveal_strlit("</div>");
    assert("class=\"diff-addedline"@.len() == 21);
    assert("</div>"@.len() == 6);
    assert("class=\"diff-addedline"@ =~= line_mark());
    assert("</div>"@ =~= line_end());
}

/// Whether an added line stands behind the mark at `j`, up to the end of the
/// line, the next mark or the end of the diff, and mentions the parameter.
pub open spec fn adds_at(body: Seq<char>, j: int, end: int) -> bool {
    &&& text_laws::stands_in(body, line_mark(), j)
    &&& j + 21 <= end <= body.len()
    &&& forall|k: int| !#[trigger] text_laws::stands_in(body.subrange(j + 21, end), line_end(), k)
    &&& exists|i: int| #[trigger] stands_loosely(body.subrange(j + 21, end), parameter(), i)
}

/// A diff that adds the parameter does so in one of its added lines: nothing
/// else counts.
pub proof fn what_is_added_stands_in_an_added_line(body: Seq<char>)
    requires
        super::adds_utm(body),
    ensures
        exists|j: int, end: int| #[trigger] adds_at(body, j, end),
{
    lemma_marks();
    let segments = text::split(body, line_mark());
    let i = choose|i: int|
        1 <= i < segments.len() && super::mentions_utm(
            text::split(#[trigger] segments[i], line_end())[0],
        );
    let (a, b) = text_laws::split_parts_stand_between_separators(body, line_mark(), 0, i);
    let segment = segments[i];
    text::a_split_has_a_part(segment, line_end());
    let line = text::split(segment, line_end())[0];
    let n = text_laws::first_parts_end_at_a_separator(segment, line_end(), 0);
    assert(line =~= body.subrange(a, a + n));
    text_laws::occurring_is_standing(body, line_mark(), a - 21);
    text_laws::split_parts_hold_no_separator(segment, line_end(), 0);
    mentioning_the_parameter(line);
    assert(adds_at(body, a - 21, a + n));
}

/// An added line that mentions the parameter counts at the end of a diff too,
/// where nothing ends it.
pub proof fn an_open_line_counts(before: Seq<char>, line: Seq<char>, i: int)
    requires
        forall|k: int| !#[trigger] text_laws::stands_in(line, line_mark(), k),
        forall|k: int| !#[trigger] text_laws::stands_in(line, line_end(), k),
        forall|k: int| !#[trigger] text_laws::stands_in(before, line_mark(), k),
        stands_loosely(line, parameter(), i),
    ensures
        super::adds_utm(before + line_mark() + line),
{
    lemma_marks();
    let mark = line_mark();
    let body = before + mark + line;
    let n = before.len() as int;
    let from = n + 21;
    assert(text_laws::stands_in(body, mark, n));
    text_laws::occurring_is_standing(body, mark, n);
    text::lemma_find_from(body, mark, 0);
    let first = text::find_from(body, mark, 0)->0;
    text_laws::occurring_is_standing(body, mark, first);
    lemma_no_early_mark(before, mark, line, first);
    assert(first == n);
    text::lemma_find_from(body, mark, from);
    assert(text::find_from(body, mark, from) is None) by {
        if text::find_from(body, mark, from) is Some {
            let k = text::find_from(body, mark, from)->0;
            text_laws::occurring_is_standing(body, mark, k);
            assert(text_laws::stands_in(line, mark, k - from)) by {
                assert forall|m: int| 0 <= m < mark.len() implies #[trigger] mark[m] == line[k
                    - from + m] by {
                    assert(mark[m] == body[k + m]);
                }
            }
        }
    }
    let segments = text::split(body, mark);
    assert(body.skip(from) =~= line);
    assert(text::split_from(body, mark, from) == seq![line]);
    assert(segments =~= seq![body.subrange(0, n)] + seq![line]);
    assert(segments[1] == line);
    text::lemma_find_from(line, line_end(), 0);
    if text::find_from(line, line_end(), 0) is Some {
        text_laws::occurring_is_standing(line, line_end(), text::find_from(line, line_end(), 0)->0);
    }
    assert(line.skip(0) =~= line);
    assert(text::split(line, line_end())[0] == line);
    mentioning_the_parameter(line);
    assert(super::mentions_utm(text::split(segments[1], line_end())[0]));
}

proof fn lemma_no_early_mark(before: Seq<char>, mark: Seq<char>, line: Seq<char>, k: int)
    requires
        mark.len() == 21,
        mark[0] == 'c',
        forall|m: int| 1 <= m < 21 ==> #[trigger] mark[m] != 'c',
        forall|j: int| !#[trigger] text_laws::stands_in(before, mark, j),
        text_laws::stands_in(before + mark + line, mark, k),
    ensures
        k >= before.len(),
{
    let body = before + mark + line;
    let n = before.len() as int;
    if k + 21 <= n {
        assert(text_laws::stands_in(before, mark, k)) by {
            assert forall|m: int| 0 <= m < mark.len() implies #[trigger] mark[m] == before[k + m] by {
                assert(mark[m] == body[k + m]);
            }
        }
    } else if k < n {
        // The mark starts with its only `c`.
        let m = n - k;
        assert(mark[m] == body[k + m]);
        assert(body[n] == mark[0]);
    }
}

/// The body of a diff is the text of the comparison, as it is.
pub proof fn body_of_a_diff(resp: Json)
    ensures
        ({
            let body = resp.member("compare"@).member("body"@);
            &&& body is Text ==> super::body_of(resp) == body->Text_0@
            &&& body !is Text ==> super::body_of(resp).len() == 0
        }),
{
}

/// A new page is checked by its first revision, any other edit by its diff, and
/// an edit without an earlier revision not at all.
pub proof fn edits_are_checked_by_kind(edit: EditView, resp: Json)
    ensures
        edit.old_revid == Some(0u64) ==> super::pass::shows_utm(edit, resp)
            == super::mentions_utm(
            crate::api::content_of(resp.member("query"@).member("pages"@).element(0)),
        ),
        edit.old_revid is Some && edit.old_revid != Some(0u64) ==> super::pass::shows_utm(
            edit,
            resp,
        ) == super::adds_utm(super::body_of(resp)),
        edit.old_revid is None ==> !super::pass::shows_utm(edit, resp),
{
}

/// A user is a newcomer where a response gives the name with one hundred edits
/// or fewer.
pub proof fn newcomers_have_few_edits(resp: Json, name: Seq<char>)
    requires
        name.len() > 0,
    ensures
        super::newcomers_in(resp).contains(name) == exists|i: int|
            0 <= i < resp.member("query"@).member("users"@).elements().len() && (
            #[trigger] resp.member("query"@).member("users"@).elements()[i]).member("name"@).text()
                == Some(name) && resp.member("query"@).member("users"@).elements()[i].member(
                "editcount"@,
            ).unsigned() is Some && resp.member("query"@).member("users"@).elements()[i].member(
                "editcount"@,
            ).unsigned()->0 <= 100,
{
    let users = resp.member("query"@).member("users"@).elements();
    if super::newcomers_in(resp).contains(name) {
        let i = choose|i: int|
            0 <= i < users.len() && super::has_few_edits(#[trigger] users[i]) && super::name_of(
                users[i],
            ) == name;
        assert(users[i].member("name"@).text() == Some(name));
    }
    if exists|i: int|
        0 <= i < users.len() && (#[trigger] users[i]).member("name"@).text() == Some(name)
            && users[i].member("editcount"@).unsigned() is Some && users[i].member(
            "editcount"@,
        ).unsigned()->0 <= 100 {
        let i = choose|i: int|
            0 <= i < users.len() && (#[trigger] users[i]).member("name"@).text() == Some(name)
                && users[i].member("editcount"@).unsigned() is Some && users[i].member(
                "editcount"@,
            ).unsigned()->0 <= 100;
        assert(super::has_few_edits(users[i]) && super::name_of(users[i]) == name);
    }
}

/// An item with a revision and a title is an edit with just these, with the user
/// and the earlier revision that it names, made when it says, or now where it
/// does not say so readably. Any other item is none.
pub proof fn an_item_is_an_edit(item: Json, now: Moment)
    ensures
        match (item.member("revid"@).unsigned(), item.member("title"@).text()) {
            (Some(revid), Some(title)) => {
                let edit = super::edit_of(item, now);
                &&& edit is Some
                &&& edit->0.revid == revid
                &&& edit->0.title == title
                &&& edit->0.user == item.member("user"@).text()
                &&& edit->0.old_revid == item.member("old_revid"@).unsigned()
                &&& match item.member("timestamp"@).text() {
                    Some(time) => match crate::moment::rfc3339_timestamp(time) {
                        Some((secs, nanos)) => edit->0.timestamp == Moment { secs, nanos },
                        None => edit->0.timestamp == now,
                    },
                    None => edit->0.timestamp == now,
                }
            },
            _ => super::edit_of(item, now) is None,
        },
{
}

/// Edits come one by one from the items, in their order.
pub proof fn edits_come_one_by_one(items: Seq<Json>, item: Json, now: Moment)
    ensures
        super::edits_of(seq![], now).len() == 0,
        super::edits_of(items.push(item), now) == (match super::edit_of(item, now) {
            Some(edit) => super::edits_of(items, now).push(edit),
            None => super::edits_of(items, now),
        }),
{
    let f = |item: Json| super::edit_of(item, now);
    let none = Seq::<Json>::empty();
    crate::api_laws::filter_map_goes_on(items, seq![item], f);
    crate::api_laws::filter_map_of_one(item, f);
    assert(items + seq![item] =~= items.push(item));
    crate::api_laws::filter_map_goes_on(none, none, f);
    assert(none + none =~= none);
    assert(super::edits_of(none, now).len() == super::edits_of(none, now).len() + super::edits_of(
        none,
        now,
    ).len());
    let before = super::edits_of(items, now);
    match super::edit_of(item, now) {
        Some(edit) => {
            assert(before + seq![edit] =~= before.push(edit));
        },
        None => {
            assert(before + Seq::<EditView>::empty() =~= before);
        },
    }
}

/// The users of edits come one by one from the edits, in their order.
pub proof fn users_come_one_by_one(edits: Seq<EditView>, edit: EditView)
    ensures
        super::users_of(seq![]).len() == 0,
        super::users_of(edits.push(edit)) == (match edit.user {
            Some(name) => super::users_of(edits).push(name),
            None => super::users_of(edits),
        }),
{
    let f = |edit: EditView| edit.user;
    let none = Seq::<EditView>::empty();
    crate::api_laws::filter_map_goes_on(edits, seq![edit], f);
    crate::api_laws::filter_map_of_one(edit, f);
    assert(edits + seq![edit] =~= edits.push(edit));
    crate::api_laws::filter_map_goes_on(none, none, f);
    assert(none + none =~= none);
    assert(super::users_of(none).len() == super::users_of(none).len() + super::users_of(
        none,
    ).len());
    let before = super::users_of(edits);
    match edit.user {
        Some(name) => {
            assert(before + seq![name] =~= before.push(name));
        },
        None => {
            assert(before + Seq::<Seq<char>>::empty() =~= before);
        },
    }
}

/// Suspects are the edits whose user is a newcomer, in their order. Edits without
/// a user are never suspected.
pub proof fn suspects_come_one_by_one(
    edits: Seq<EditView>,
    edit: EditView,
    newcomers: Set<Seq<char>>,
)
    ensures
        super::pass::suspects_of(seq![], newcomers).len() == 0,
        super::pass::suspects_of(edits.push(edit), newcomers) == if edit.user is Some
            && newcomers.contains(edit.user->0) {
            super::pass::suspects_of(edits, newcomers).push(edit)
        } else {
            super::pass::suspects_of(edits, newcomers)
        },
{
    reveal(Seq::filter);
    assert(edits.push(edit).drop_last() =~= edits);
}

/// A page of edits is made of the first fifty.
pub proof fn a_page_holds_fifty_edits(edits: Seq<EditView>, i: int)
    ensures
        super::one_page(edits).len() == (if edits.len() < 50 {
            edits.len() as int
        } else {
            50
        }),
        0 <= i < super::one_page(edits).len() ==> super::one_page(edits)[i] == edits[i],
{
}

/// Sorting changes the order of edits only.
pub proof fn sorting_changes_the_order_only(edits: Seq<EditView>)
    ensures
        super::newest_first(edits).to_multiset() == edits.to_multiset(),
    decreases edits.len(),
{
    if edits.len() > 0 {
        let rest = edits.drop_last();
        sorting_changes_the_order_only(rest);
        lemma_put(super::newest_first(rest), edits.last());
        assert(edits =~= rest.push(edits.last()));
        rest.to_multiset_ensures();
    } else {
        assert(super::newest_first(edits) =~= edits);
    }
}

proof fn lemma_put(edits: Seq<EditView>, edit: EditView)
    ensures
        super::with_edit(edits, edit).to_multiset() == edits.to_multiset().insert(edit),
    decreases edits.len(),
{
    edits.to_multiset_ensures();
    if edits.len() > 0 && !edits.last().timestamp.after(edit.timestamp) {
        let rest = edits.drop_last();
        lemma_put(rest, edit);
        rest.to_multiset_ensures();
        super::with_edit(rest, edit).to_multiset_ensures();
        assert(edits =~= rest.push(edits.last()));
        assert(rest.to_multiset().insert(edit).insert(edits.last()) =~= rest.to_multiset().insert(
            edits.last(),
        ).insert(edit));
    }
}

/// Matching edits are added one by one, each where its revision is new.
pub proof fn merging_goes_edit_by_edit(
    edits: Seq<EditView>,
    more: Seq<EditView>,
    edit: EditView,
)
    ensures
        super::merged(edits, seq![]) == edits,
        super::merged(edits, more.push(edit)) == if exists|i: int|
            0 <= i < super::merged(edits, more).len() && (#[trigger] super::merged(
                edits,
                more,
            )[i]).revid == edit.revid {
            super::merged(edits, more)
        } else {
            super::merged(edits, more).push(edit)
        },
{
    assert(more.push(edit).drop_last() =~= more);
}

/// A save is due once two hours have passed.
pub proof fn saves_are_due_after_two_hours(last_save: Moment, now: Moment)
    ensures
        super::is_due(last_save, now) == (1_000_000_000 * (now.secs - last_save.secs) + now.nanos
            - last_save.nanos >= 7200 * 1_000_000_000),
{
}

/// The row of an edit links its page and its diff, and names its user and the
/// time of day.
pub proof fn the_row_of_an_edit(edit: EditView, clock: Seq<char>)
    ensures
        super::report_row(edit, clock) == "|-\n| [[:"@ + edit.title + "]]\n| "@ + (match edit.user {
            Some(name) => name,
            None => "(匿名)"@,
        }) + "\n| "@ + clock + " [[Special:Diff/"@ + crate::number::decimal(edit.revid as nat)
            + "|差分]]\n"@,
{
}

/// A report has one row for each edit, in their order, between its head and its
/// end, with the time of day of the edit.
pub proof fn rows_follow_each_other(
    edits: Seq<EditView>,
    edit: EditView,
    updated: Seq<char>,
    rows: Seq<char>,
)
    requires
        super::report_text(edits, super::clock_texts(edits), updated) == super::report_head(updated)
            + rows + seq!['|', '}', '\n'],
    ensures
        super::report_text(edits.push(edit), super::clock_texts(edits.push(edit)), updated)
            == super::report_head(updated) + (rows + super::report_row(
            edit,
            crate::moment::clock(edit.timestamp.secs),
        )) + seq!['|', '}', '\n'],
        super::report_text(seq![], super::clock_texts(seq![]), updated) == super::report_head(
            updated,
        ) + seq!['|', '}', '\n'],
{
    reveal_strlit("|}\n");
    assert("|}\n"@ =~= seq!['|', '}', '\n']);
    let end = seq!['|', '}', '\n'];
    let head = super::report_head(updated);
    let all = edits.push(edit);
    let old_rows = super::report_rows(edits, super::clock_texts(edits));
    assert(head + old_rows + end == head + rows + end);
    assert(old_rows =~= rows) by {
        let a = head + old_rows + end;
        let b = head + rows + end;
        assert(a.len() == b.len());
        assert(old_rows.len() == rows.len());
        assert forall|i: int| 0 <= i < rows.len() implies old_rows[i] == rows[i] by {
            assert(a[head.len() + i] == old_rows[i]);
            assert(b[head.len() + i] == rows[i]);
        }
    }
    assert(all.drop_last() =~= edits);
    lemma_rows_by_first_clocks(edits, super::clock_texts(all), super::clock_texts(edits));
    assert(super::clock_texts(all)[edits.len() as int] == crate::moment::clock(edit.timestamp.secs));
    assert(head + Seq::<char>::empty() + end =~= head + end);
}

proof fn lemma_rows_by_first_clocks(
    edits: Seq<EditView>,
    a: Seq<Seq<char>>,
    b: Seq<Seq<char>>,
)
    requires
        forall|i: int| 0 <= i < edits.len() ==> #[trigger] a[i] == b[i],
    ensures
        super::report_rows(edits, a) == super::report_rows(edits, b),
    decreases edits.len(),
{
    if edits.len() > 0 {
        lemma_rows_by_first_clocks(edits.drop_last(), a, b);
        assert(a[edits.len() - 1] == b[edits.len() - 1]);
    }
}

/// What a pass asks for: the edits since a time, the edit counts of fifty users at a
/// time, and the first revision of a new page or the changes of another edit.
pub proof fn requests_of_a_pass(pass: PassView)
    ensures
        super::pass::pass_params(pass) == (match pass {
            PassView::Polling { since } => Some(
                super::recent_changes_params(
                    crate::moment::utc_text(since.secs, since.nanos, "%Y-%m-%dT%H:%M:%SZ"@),
                ),
            ),
            PassView::Users { users, at, .. } => Some(
                super::edit_counts_params(crate::batch::batch_of(users, at, 50)),
            ),
            PassView::Checking { suspects, at, .. } => match suspects[at].old_revid {
                Some(0) => Some(super::initial_revision_params(suspects[at].revid as nat)),
                Some(old_revid) => Some(
                    super::diff_params(old_revid as nat, suspects[at].revid as nat),
                ),
                None => None,
            },
            PassView::Ended { .. } => None,
        }),
{
}

/// A failure to poll or to count edits ends a pass without a match. A failure to
/// check an edit passes over that edit alone.
pub proof fn failures_in_a_pass(pass: PassView, failure: Failure, now: Moment)
    ensures
        pass is Polling || pass is Users ==> super::pass::pass_after(pass, Err(failure), now) == (
        PassView::Ended { matching: seq![] }),
        pass is Checking ==> super::pass::pass_after(pass, Err(failure), now)
            == super::pass::checking_on(
            pass->Checking_suspects,
            pass->Checking_at + 1,
            pass->Checking_matching,
        ),
{
}

/// The next pass starts at the newest edit that was read, or where this one did.
pub proof fn where_the_next_pass_starts(
    pass: PassView,
    reply: Result<Json, Failure>,
    now: Moment,
    since: Moment,
)
    ensures
        ({
            let next = super::pass::since_after(pass, reply, now, since);
            if pass is Polling && reply is Ok && super::edits_in(reply->Ok_0, now).len() > 0 {
                next == super::edits_in(reply->Ok_0, now)[0].timestamp
            } else {
                next == since
            }
        }),
{
}

/// The edits of a response are those listed, the first fifty of them, newest first.
pub proof fn edits_are_read_from_a_response(resp: Json, now: Moment)
    ensures
        super::edits_in(resp, now) == super::newest_first(
            super::one_page(
                super::edits_of(resp.member("query"@).member("recentchanges"@).elements(), now),
            ),
        ),
{
}

/// An edit is put behind those that are newer, and in front of all that are not.
pub proof fn edits_are_put_behind_newer_ones(
    newer: Seq<EditView>,
    others: Seq<EditView>,
    edit: EditView,
)
    requires
        forall|i: int|
            0 <= i < newer.len() ==> (#[trigger] newer[i]).timestamp.after(edit.timestamp),
        forall|i: int|
            0 <= i < others.len() ==> !(#[trigger] others[i]).timestamp.after(edit.timestamp),
    ensures
        super::with_edit(newer + others, edit) == newer + seq![edit] + others,
    decreases others.len(),
{
    let edits = newer + others;
    if others.len() > 0 {
        let rest = others.drop_last();
        edits_are_put_behind_newer_ones(newer, rest, edit);
        assert(edits.last() == others.last());
        assert(edits.drop_last() =~= newer + rest);
        assert((newer + seq![edit] + rest).push(others.last()) =~= newer + seq![edit] + others);
    } else {
        assert(edits =~= newer);
        if newer.len() > 0 {
            assert(edits.last() == newer[newer.len() - 1]);
        }
        assert(edits.push(edit) =~= newer + seq![edit] + others);
    }
}

/// Edits are sorted one by one.
pub proof fn edits_are_sorted_one_by_one(edits: Seq<EditView>, edit: EditView)
    ensures
        super::newest_first(seq![]).len() == 0,
        super::newest_first(edits.push(edit)) == super::with_edit(
            super::newest_first(edits),
            edit,
        ),
{
    assert(edits.push(edit).drop_last() =~= edits);
}

/// How often the monitor polls and saves, and how much it asks for.
pub proof fn limits_of_the_monitor()
    ensures
        super::SAVE_INTERVAL == 7200,
        super::POLL_INTERVAL == 30,
        super::EDIT_COUNT_LIMIT == 100,
        super::RC_PAGE_SIZE == 50,
        super::BATCH_SIZE == 50,
{
}

} // verus!
