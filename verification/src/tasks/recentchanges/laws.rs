//! Laws of the monitor of recent changes.

use vstd::prelude::*;

use super::Monitor;
use crate::moment::Moment;

verus! {

proof fn lemma_mark_texts()
    ensures
        "class=\"diff-addedline"@ =~= seq![
            'c',
            'l',
            'a',
            's',
            's',
            '=',
            '"',
            'd',
            'i',
            'f',
            'f',
            '-',
            'a',
            'd',
            'd',
            'e',
            'd',
            'l',
            'i',
            'n',
            'e',
        ],
        "</div>"@ =~= seq!['<', '/', 'd', 'i', 'v', '>'],
{
    reveal_strlit("class=\"diff-addedline");
    reveal_strlit("</div>");
    assert("class=\"diff-addedline"@.len() == 21);
    assert("</div>"@.len() == 6);
}

/// A diff without an added line adds nothing.
pub proof fn no_added_line_no_match(body: Seq<char>)
    requires
        !crate::text::occurs(body, "class=\"diff-addedline"@),
    ensures
        !super::adds_utm(body),
{
    lemma_mark_texts();
    crate::text::lemma_find_from(body, "class=\"diff-addedline"@, 0);
}

proof fn lemma_part_mentions(whole: Seq<char>, a: int, b: int)
    requires
        0 <= a <= b <= whole.len(),
        super::mentions_utm(whole.subrange(a, b)),
    ensures
        super::mentions_utm(whole),
{
    let part = crate::text::lower(whole.subrange(a, b));
    let all = crate::text::lower(whole);
    let parameter = "utm_source=chatgpt.com"@;
    let i = choose|i: int| crate::text::occurs_at(part, parameter, i);
    assert(all.subrange(a + i, a + i + parameter.len()) =~= part.subrange(
        i,
        i + parameter.len(),
    ));
    assert(crate::text::occurs_at(all, parameter, a + i));
}

/// A diff that does not hold the parameter adds nothing.
pub proof fn no_parameter_no_match(body: Seq<char>)
    requires
        !super::mentions_utm(body),
    ensures
        !super::adds_utm(body),
{
    lemma_mark_texts();
    if super::adds_utm(body) {
        let segments = crate::text::split(body, "class=\"diff-addedline"@);
        let i = choose|i: int|
            1 <= i < segments.len() && super::mentions_utm(
                crate::text::split(#[trigger] segments[i], "</div>"@)[0],
            );
        let segment = segments[i];
        crate::text::a_split_has_a_part(segment, "</div>"@);
        crate::text::split_parts_are_parts(segment, "</div>"@, 0);
        let (a, b) = choose|a: int, b: int|
            0 <= a <= b <= segment.len() && crate::text::split(segment, "</div>"@)[0]
                == #[trigger] segment.subrange(a, b);
        lemma_part_mentions(segment, a, b);
        crate::text::split_parts_are_parts(body, "class=\"diff-addedline"@, i);
        let (c, d) = choose|c: int, d: int|
            0 <= c <= d <= body.len() && segments[i] == #[trigger] body.subrange(c, d);
        lemma_part_mentions(body, c, d);
    }
}

/// Whatever the case of letters, the parameter is found.
pub proof fn the_parameter_is_found_in_any_case(a: Seq<char>, b: Seq<char>)
    requires
        crate::text::same_ignoring_case(a, b),
    ensures
        super::mentions_utm(a) == super::mentions_utm(b),
{
    assert(crate::text::lower(a) =~= crate::text::lower(b));
}

/// No two marks of added lines overlap.
proof fn lemma_marks_do_not_overlap(body: Seq<char>, n: int)
    requires
        crate::text::occurs_at(body, "class=\"diff-addedline"@, n),
    ensures
        forall|j: int|
            n - "class=\"diff-addedline"@.len() < j < n ==> !#[trigger] crate::text::occurs_at(
                body,
                "class=\"diff-addedline"@,
                j,
            ),
{
    lemma_mark_texts();
    let mark = "class=\"diff-addedline"@;
    assert forall|j: int| n - mark.len() < j < n implies !#[trigger] crate::text::occurs_at(
        body,
        mark,
        j,
    ) by {
        if crate::text::occurs_at(body, mark, j) {
            assert(body.subrange(j, j + mark.len())[n - j] == body.subrange(n, n + mark.len())[0]);
        }
    }
}

/// A text that does not hold a mark, followed by the mark, is the first part of
/// a split, if the first character of the mark does not recur in it.
proof fn lemma_split_ends_before(s: Seq<char>, line: Seq<char>, mark: Seq<char>)
    requires
        mark.len() > 0,
        forall|j: int| 1 <= j < mark.len() ==> #[trigger] mark[j] != mark[0],
        !crate::text::occurs(line, mark),
        line.len() + mark.len() <= s.len(),
        s.subrange(0, line.len() as int) == line,
        s.subrange(line.len() as int, (line.len() + mark.len()) as int) == mark,
    ensures
        crate::text::split(s, mark)[0] == line,
{
    let n = line.len() as int;
    assert(crate::text::occurs_at(s, mark, n));
    assert forall|j: int| 0 <= j < n implies !crate::text::occurs_at(s, mark, j) by {
        if crate::text::occurs_at(s, mark, j) {
            let part = s.subrange(j, j + mark.len());
            if j + mark.len() <= n {
                assert(line.subrange(j, j + mark.len()) =~= part);
                assert(crate::text::occurs_at(line, mark, j));
            } else {
                assert(part[n - j] == s.subrange(n, n + mark.len())[0]);
            }
        }
    }
    crate::text::lemma_find_from(s, mark, 0);
    assert(crate::text::find_from(s, mark, 0) == Some(n));
}

/// Where an added line and the end of its `<div>` stand in a diff, the segment
/// from there on starts with them.
proof fn lemma_segment_starts_with(body: Seq<char>, m: int, line: Seq<char>)
    requires
        0 <= m,
        m + line.len() + 6 <= body.len(),
        body.subrange(m, m + line.len()) == line,
        body.subrange(m + line.len(), m + line.len() + 6) == "</div>"@,
        !crate::text::occurs(line, "class=\"diff-addedline"@),
    ensures
        ({
            let segment = crate::text::split_from(body, "class=\"diff-addedline"@, m)[0];
            &&& line.len() + 6 <= segment.len()
            &&& segment.subrange(0, line.len() as int) == line
            &&& segment.subrange(line.len() as int, line.len() as int + 6) == "</div>"@
        }),
{
    lemma_mark_texts();
    let mark = "class=\"diff-addedline"@;
    let k = m + line.len();
    assert forall|j: int| m <= j < k + 6 implies !crate::text::occurs_at(body, mark, j) by {
        if crate::text::occurs_at(body, mark, j) {
            let part = body.subrange(j, j + mark.len());
            if j + mark.len() <= k {
                assert(line.subrange(j - m, j - m + mark.len()) =~= part);
                assert(crate::text::occurs_at(line, mark, j - m));
            } else if j <= k {
                assert(part[k - j] == body.subrange(k, k + 6)[0]);
            } else {
                assert(part[0] == body.subrange(k, k + 6)[j - k]);
            }
        }
    }
    crate::text::lemma_find_from(body, mark, m);
    let segment = crate::text::split_from(body, mark, m)[0];
    assert(segment.subrange(0, line.len() as int) =~= body.subrange(m, k));
    assert(segment.subrange(line.len() as int, line.len() as int + 6) =~= body.subrange(k, k + 6));
}

/// A diff with an added line that holds the parameter is found, whatever stands
/// before and after that line.
pub proof fn an_added_line_with_the_parameter_matches(
    before: Seq<char>,
    line: Seq<char>,
    after: Seq<char>,
)
    requires
        !crate::text::occurs(line, "class=\"diff-addedline"@),
        !crate::text::occurs(line, "</div>"@),
        super::mentions_utm(line),
    ensures
        super::adds_utm(
            before + "class=\"diff-addedline"@ + line + "</div>"@ + after,
        ),
{
    lemma_mark_texts();
    let mark = "class=\"diff-addedline"@;
    let end = "</div>"@;
    let body = before + mark + line + end + after;
    let n = before.len() as int;
    let m = n + mark.len();
    assert(body.subrange(n, m) =~= mark);
    assert(body.subrange(m, m + line.len()) =~= line);
    assert(body.subrange(m + line.len(), m + line.len() + 6) =~= end);
    lemma_marks_do_not_overlap(body, n);
    crate::text::a_split_starts_behind_each_separator(body, mark, 0, n);
    let segments = crate::text::split(body, mark);
    let i = choose|i: int|
        1 <= i < segments.len() && #[trigger] segments[i] == crate::text::split_from(
            body,
            mark,
            m,
        )[0];
    lemma_segment_starts_with(body, m, line);
    lemma_split_ends_before(segments[i], line, end);
}

/// Merging keeps the edits that are there already, in their places.
pub proof fn merging_keeps_what_is_there(
    edits: Seq<super::EditView>,
    more: Seq<super::EditView>,
)
    ensures
        edits.len() <= super::merged(edits, more).len(),
        super::merged(edits, more).take(edits.len() as int) == edits,
    decreases more.len(),
{
    if more.len() > 0 {
        merging_keeps_what_is_there(edits, more.drop_last());
    }
    assert(super::merged(edits, more).take(edits.len() as int) =~= edits);
}

/// After merging, the revision of every edit is there.
pub proof fn merging_covers_every_edit(
    edits: Seq<super::EditView>,
    more: Seq<super::EditView>,
    i: int,
)
    requires
        0 <= i < more.len(),
    ensures
        super::has_revision(
            super::merged(edits, more),
            more[i].revid,
        ),
    decreases more.len(),
{
    let before = super::merged(edits, more.drop_last());
    let now = super::merged(edits, more);
    if i < more.len() - 1 {
        merging_covers_every_edit(edits, more.drop_last(), i);
        let k = choose|k: int| 0 <= k < before.len() && (#[trigger] before[k]).revid == more[i].revid;
        assert(now[k] == before[k]);
    } else if !super::has_revision(before, more.last().revid) {
        assert(now[now.len() - 1] == more.last());
    }
}

/// Merging the same edits again, as overlapping polls do, changes nothing.
pub proof fn merging_again_changes_nothing(
    edits: Seq<super::EditView>,
    more: Seq<super::EditView>,
)
    ensures
        super::merged(super::merged(edits, more), more)
            == super::merged(edits, more),
{
    let all = super::merged(edits, more);
    assert forall|i: int| 0 <= i < more.len() implies super::has_revision(
        all,
        (#[trigger] more[i]).revid,
    ) by {
        merging_covers_every_edit(edits, more, i);
    }
    lemma_merging_known(all, more);
}

proof fn lemma_merging_known(
    edits: Seq<super::EditView>,
    more: Seq<super::EditView>,
)
    requires
        forall|i: int|
            0 <= i < more.len() ==> super::has_revision(
                edits,
                (#[trigger] more[i]).revid,
            ),
    ensures
        super::merged(edits, more) == edits,
    decreases more.len(),
{
    if more.len() > 0 {
        let rest = more.drop_last();
        assert forall|i: int| 0 <= i < rest.len() implies super::has_revision(
            edits,
            (#[trigger] rest[i]).revid,
        ) by {
            assert(rest[i] == more[i]);
        }
        lemma_merging_known(edits, rest);
        assert(super::has_revision(edits, more[more.len() - 1].revid));
    }
}

/// On its first pass, a monitor saves the report, even when nothing matches.
pub proof fn the_first_pass_saves(monitor: Monitor, start: Moment, now: Moment)
    requires
        monitor.last_save.secs == start.secs - super::SAVE_INTERVAL,
        monitor.last_save.nanos == start.nanos,
        !start.after(now),
        start.is_regular(),
        now.is_regular(),
    ensures
        monitor.is_save_due(now),
{
}

proof fn lemma_next_check(suspects: Seq<super::EditView>, at: int)
    requires
        0 <= at <= suspects.len(),
    ensures
        at <= super::pass::next_check(suspects, at) <= suspects.len(),
    decreases suspects.len() - at,
{
    if at < suspects.len() && suspects[at].old_revid is None {
        lemma_next_check(suspects, at + 1);
    }
}

/// How much of a pass is left: the stage, and what the stage has still to do.
pub open spec fn work_left(pass: super::pass::PassView) -> (nat, nat) {
    match pass {
        super::pass::PassView::Polling { .. } => (3, 0),
        super::pass::PassView::Users { users, at, .. } => (2, (users.len() - at) as nat),
        super::pass::PassView::Checking { suspects, at, .. } => (1, (suspects.len() - at) as nat),
        super::pass::PassView::Ended { .. } => (0, 0),
    }
}

/// Every reply, whether it is a response or a failure, brings a pass nearer to
/// its end. So a pass makes finitely many requests.
pub proof fn every_reply_brings_a_pass_nearer_its_end(
    pass: super::pass::PassView,
    reply: Result<crate::json::Json, crate::api::Failure>,
    now: Moment,
)
    requires
        pass.is_valid(),
        super::pass::pass_params(pass) is Some,
    ensures
        ({
            let before = work_left(pass);
            let after = work_left(super::pass::pass_after(pass, reply, now));
            after.0 < before.0 || (after.0 == before.0 && after.1 < before.1)
        }),
{
    if let super::pass::PassView::Checking { suspects, at, .. } = pass {
        lemma_next_check(suspects, at + 1);
    }
}

/// Only edits by users with few edits are ever checked: whatever the replies,
/// an edit that is checked was made by one of the users found so far.
pub proof fn only_suspects_are_checked(
    edits: Seq<super::EditView>,
    users: Seq<Seq<char>>,
    newcomers: Set<Seq<char>>,
    at: int,
)
    requires
        at >= users.len(),
    ensures
        match super::pass::users_on(edits, users, at, newcomers) {
            super::pass::PassView::Checking { suspects, .. } => forall|i: int|
                0 <= i < suspects.len() ==> super::is_made_by(#[trigger] suspects[i], newcomers)
                    && edits.contains(suspects[i]),
            super::pass::PassView::Ended { matching } => matching.len() == 0,
            _ => false,
        },
{
    let pick = |edit: super::EditView| super::is_made_by(edit, newcomers);
    let suspects = edits.filter(pick);
    assert forall|i: int| 0 <= i < suspects.len() implies pick(#[trigger] suspects[i])
        && edits.contains(suspects[i]) by {
        lemma_filtered(edits, pick, i);
    }
}

/// What becomes of a pass when one reply after another comes in, each at its
/// time.
pub open spec fn pass_after_all(
    pass: super::pass::PassView,
    replies: Seq<(Result<crate::json::Json, crate::api::Failure>, Moment)>,
) -> super::pass::PassView
    decreases replies.len(),
{
    if replies.len() == 0 {
        pass
    } else {
        pass_after_all(
            super::pass::pass_after(pass, replies[0].0, replies[0].1),
            replies.skip(1),
        )
    }
}

/// The edits that there is something to check about.
pub open spec fn checkable(edits: Seq<super::EditView>) -> Seq<super::EditView> {
    edits.filter(|edit: super::EditView| edit.old_revid is Some)
}

/// Whether a reply shows that an edit adds the parameter. A failure shows
/// nothing.
pub open spec fn reply_shows_utm(
    edit: super::EditView,
    reply: Result<crate::json::Json, crate::api::Failure>,
) -> bool {
    match reply {
        Ok(resp) => super::pass::shows_utm(edit, resp),
        Err(_) => false,
    }
}

/// The edits of which their replies show that they add the parameter, in order.
pub open spec fn shown(
    edits: Seq<super::EditView>,
    replies: Seq<(Result<crate::json::Json, crate::api::Failure>, Moment)>,
) -> Seq<super::EditView>
    decreases edits.len(),
{
    if edits.len() == 0 {
        seq![]
    } else {
        let later = shown(edits.skip(1), replies.skip(1));
        if reply_shows_utm(edits[0], replies[0].0) {
            seq![edits[0]] + later
        } else {
            later
        }
    }
}

/// Responses as the replies that they are.
pub open spec fn as_replies(responses: Seq<(crate::json::Json, Moment)>) -> Seq<
    (Result<crate::json::Json, crate::api::Failure>, Moment),
> {
    responses.map_values(
        |response: (crate::json::Json, Moment)|
            (Ok::<crate::json::Json, crate::api::Failure>(response.0), response.1),
    )
}

/// The users that responses show to be newcomers.
pub open spec fn newcomers_among(responses: Seq<(crate::json::Json, Moment)>) -> Set<Seq<char>>
    decreases responses.len(),
{
    if responses.len() == 0 {
        Set::empty()
    } else {
        super::newcomers_in(responses[0].0).union(newcomers_among(responses.skip(1)))
    }
}

proof fn lemma_checkable_from(suspects: Seq<super::EditView>, at: int)
    requires
        0 <= at < suspects.len(),
    ensures
        checkable(suspects.skip(at)) == if suspects[at].old_revid is Some {
            seq![suspects[at]] + checkable(suspects.skip(at + 1))
        } else {
            checkable(suspects.skip(at + 1))
        },
{
    let pick = |edit: super::EditView| edit.old_revid is Some;
    let first = seq![suspects[at]];
    let rest = suspects.skip(at + 1);
    assert(suspects.skip(at) =~= first + rest);
    Seq::filter_distributes_over_add(first, rest, pick);
    reveal(Seq::filter);
    assert(first.drop_last() =~= seq![]);
    assert(first.drop_last().filter(pick) =~= seq![]);
    if suspects[at].old_revid is Some {
        assert(first.filter(pick) =~= first);
    } else {
        assert(first.filter(pick) =~= seq![]);
        assert(seq![] + rest.filter(pick) =~= rest.filter(pick));
    }
}

proof fn lemma_checks(
    suspects: Seq<super::EditView>,
    at: int,
    matching: Seq<super::EditView>,
    replies: Seq<(Result<crate::json::Json, crate::api::Failure>, Moment)>,
)
    requires
        0 <= at <= suspects.len(),
        replies.len() == checkable(suspects.skip(at)).len(),
    ensures
        pass_after_all(super::pass::checking_on(suspects, at, matching), replies)
            == (super::pass::PassView::Ended {
            matching: matching + shown(checkable(suspects.skip(at)), replies),
        }),
    decreases suspects.len() - at,
{
    let left = checkable(suspects.skip(at));
    if at == suspects.len() {
        assert(suspects.skip(at) =~= seq![]);
        reveal(Seq::filter);
        assert(left =~= seq![]);
        assert(matching + shown(left, replies) =~= matching);
    } else {
        lemma_checkable_from(suspects, at);
        if suspects[at].old_revid is Some {
            let later = checkable(suspects.skip(at + 1));
            assert(left.skip(1) =~= later);
            let shows = reply_shows_utm(suspects[at], replies[0].0);
            let now = if shows {
                matching.push(suspects[at])
            } else {
                matching
            };
            lemma_checks(suspects, at + 1, now, replies.skip(1));
            if shows {
                assert(now + shown(later, replies.skip(1)) =~= matching + shown(left, replies));
            }
        } else {
            lemma_checks(suspects, at + 1, matching, replies);
        }
    }
}

/// A pass ends with exactly those suspects, in order, whose replies showed the
/// parameter: none is missed, and none is made up.
pub proof fn checking_ends_with_what_was_shown(
    suspects: Seq<super::EditView>,
    replies: Seq<(Result<crate::json::Json, crate::api::Failure>, Moment)>,
)
    requires
        replies.len() == checkable(suspects).len(),
    ensures
        pass_after_all(super::pass::checking_on(suspects, 0, seq![]), replies)
            == (super::pass::PassView::Ended { matching: shown(checkable(suspects), replies) }),
{
    assert(suspects.skip(0) =~= suspects);
    lemma_checks(suspects, 0, seq![], replies);
    assert(Seq::<super::EditView>::empty() + shown(checkable(suspects), replies) =~= shown(
        checkable(suspects),
        replies,
    ));
}

proof fn lemma_users(
    edits: Seq<super::EditView>,
    users: Seq<Seq<char>>,
    at: int,
    known: Set<Seq<char>>,
    responses: Seq<(crate::json::Json, Moment)>,
    checks: Seq<(Result<crate::json::Json, crate::api::Failure>, Moment)>,
)
    requires
        0 <= at <= users.len(),
        responses.len() == crate::batch::batches_in(users.len() - at, super::BATCH_SIZE as int),
    ensures
        pass_after_all(
            super::pass::users_on(edits, users, at, known),
            as_replies(responses) + checks,
        ) == pass_after_all(
            super::pass::checking_on(
                super::pass::suspects_of(edits, known.union(newcomers_among(responses))),
                0,
                seq![],
            ),
            checks,
        ),
    decreases users.len() - at,
{
    let replies = as_replies(responses) + checks;
    if at < users.len() {
        let end = crate::batch::batch_end(at, super::BATCH_SIZE as int, users.len() as int);
        let found = super::newcomers_in(responses[0].0);
        crate::batch::a_batch_taken_leaves_one_less(
            at,
            super::BATCH_SIZE as int,
            users.len() as int,
        );
        crate::batch::batches_come_with_items(users.len() - end, super::BATCH_SIZE as int);
        assert(replies[0] == as_replies(responses)[0]);
        assert(replies.skip(1) =~= as_replies(responses.skip(1)) + checks);
        lemma_users(edits, users, end, known.union(found), responses.skip(1), checks);
        assert(known.union(found).union(newcomers_among(responses.skip(1))) =~= known.union(
            newcomers_among(responses),
        ));
    } else {
        assert(replies =~= checks);
        assert(known.union(newcomers_among(responses)) =~= known);
    }
}

/// A whole pass ends with exactly those of the polled edits, newest first, that
/// were made by newcomers and whose replies showed the parameter.
pub proof fn a_pass_finds_what_its_replies_show(
    since: Moment,
    poll: (crate::json::Json, Moment),
    responses: Seq<(crate::json::Json, Moment)>,
    checks: Seq<(Result<crate::json::Json, crate::api::Failure>, Moment)>,
)
    requires
        ({
            let edits = super::edits_in(poll.0, poll.1);
            let users = crate::titles::unique_of(super::users_of(edits));
            let suspects = super::pass::suspects_of(edits, newcomers_among(responses));
            &&& responses.len() == crate::batch::batches_in(
                users.len() as int,
                super::BATCH_SIZE as int,
            )
            &&& checks.len() == checkable(suspects).len()
        }),
    ensures
        pass_after_all(
            super::pass::PassView::Polling { since },
            as_replies(seq![poll]) + as_replies(responses) + checks,
        ) == (super::pass::PassView::Ended {
            matching: shown(
                checkable(
                    super::pass::suspects_of(
                        super::edits_in(poll.0, poll.1),
                        newcomers_among(responses),
                    ),
                ),
                checks,
            ),
        }),
{
    let edits = super::edits_in(poll.0, poll.1);
    let users = crate::titles::unique_of(super::users_of(edits));
    let replies = as_replies(seq![poll]) + as_replies(responses) + checks;
    assert(replies[0] == as_replies(seq![poll])[0]);
    assert(replies.skip(1) =~= as_replies(responses) + checks);
    lemma_users(edits, users, 0, Set::empty(), responses, checks);
    assert(Set::<Seq<char>>::empty().union(newcomers_among(responses)) =~= newcomers_among(
        responses,
    ));
    checking_ends_with_what_was_shown(
        super::pass::suspects_of(edits, newcomers_among(responses)),
        checks,
    );
}

proof fn lemma_filtered<T>(s: Seq<T>, p: spec_fn(T) -> bool, i: int)
    requires
        0 <= i < s.filter(p).len(),
    ensures
        p(s.filter(p)[i]),
        s.contains(s.filter(p)[i]),
    decreases s.len(),
{
    reveal(Seq::filter);
    let rest = s.drop_last();
    let v = s.filter(p)[i];
    if i < rest.filter(p).len() {
        lemma_filtered(rest, p, i);
        let k = rest.index_of(v);
        assert(s[k] == v);
    } else {
        assert(s[s.len() - 1] == v);
    }
}

proof fn lemma_in_front(edits: Seq<super::EditView>, edit: super::EditView)
    requires
        forall|i: int|
            0 <= i < edits.len() ==> !(#[trigger] edits[i]).timestamp.after(edit.timestamp),
    ensures
        super::with_edit(edits, edit) == seq![edit] + edits,
    decreases edits.len(),
{
    if edits.len() > 0 {
        let rest = edits.drop_last();
        assert forall|i: int| 0 <= i < rest.len() implies !(#[trigger] rest[i]).timestamp.after(
            edit.timestamp,
        ) by {
            assert(rest[i] == edits[i]);
        }
        lemma_in_front(rest, edit);
        assert(!edits[edits.len() - 1].timestamp.after(edit.timestamp));
    }
    assert(super::with_edit(edits, edit) =~= seq![edit] + edits);
}

/// Edits that come oldest first are turned round.
pub proof fn edits_in_order_are_turned_round(edits: Seq<super::EditView>)
    requires
        forall|i: int, j: int|
            0 <= i < j < edits.len() ==> !(#[trigger] edits[i]).timestamp.after(
                (#[trigger] edits[j]).timestamp,
            ),
    ensures
        super::newest_first(edits) == edits.reverse(),
    decreases edits.len(),
{
    if edits.len() > 0 {
        let rest = edits.drop_last();
        assert forall|i: int, j: int| 0 <= i < j < rest.len() implies !(
        #[trigger] rest[i]).timestamp.after((#[trigger] rest[j]).timestamp) by {
            assert(rest[i] == edits[i] && rest[j] == edits[j]);
        }
        edits_in_order_are_turned_round(rest);
        let turned = rest.reverse();
        assert forall|i: int| 0 <= i < turned.len() implies !(
        #[trigger] turned[i]).timestamp.after(edits.last().timestamp) by {
            let k = rest.len() - 1 - i;
            assert(turned[i] == edits[k]);
            assert(!edits[k].timestamp.after(edits[edits.len() - 1].timestamp));
        }
        lemma_in_front(turned, edits.last());
    }
    assert(super::newest_first(edits) =~= edits.reverse());
}

/// When the next pass starts, no edit of this one is newer.
pub proof fn the_next_pass_starts_at_the_newest_edit(
    since: Moment,
    resp: crate::json::Json,
    now: Moment,
    i: int,
)
    requires
        0 <= i < super::edits_in(resp, now).len(),
    ensures
        !super::edits_in(resp, now)[i].timestamp.after(
            super::pass::since_after(
                super::pass::PassView::Polling { since },
                Ok(resp),
                now,
                since,
            ),
        ),
{
    let all = super::edits_of(resp.member("query"@).member("recentchanges"@).elements(), now);
    super::sorting_edits_keeps_them(super::one_page(all));
}

/// Where a poll gives fewer edits than there are, those that it leaves out are
/// not passed over: of edits that come oldest first, none that is left out was
/// made before the time at which the next pass starts.
pub proof fn no_edit_is_passed_over(
    since: Moment,
    resp: crate::json::Json,
    now: Moment,
    i: int,
)
    requires
        ({
            let all = super::edits_of(
                resp.member("query"@).member("recentchanges"@).elements(),
                now,
            );
            &&& forall|j: int, k: int|
                0 <= j < k < all.len() ==> !(#[trigger] all[j]).timestamp.after(
                    (#[trigger] all[k]).timestamp,
                )
            &&& super::RC_PAGE_SIZE <= i < all.len()
        }),
    ensures
        !super::pass::since_after(
            super::pass::PassView::Polling { since },
            Ok(resp),
            now,
            since,
        ).after(
            super::edits_of(
                resp.member("query"@).member("recentchanges"@).elements(),
                now,
            )[i].timestamp,
        ),
{
    let all = super::edits_of(resp.member("query"@).member("recentchanges"@).elements(), now);
    let page = super::one_page(all);
    super::sorting_edits_keeps_them(page);
    let newest = super::edits_in(resp, now)[0];
    assert(super::newest_first(page).contains(newest));
    assert(page.contains(newest));
    let k = page.index_of(newest);
    assert(all[k] == newest);
}

/// The times at which a monitor saves, of those at which its passes end.
pub open spec fn saves_at(last_save: Moment, passes: Seq<Moment>) -> Seq<Moment>
    decreases passes.len(),
{
    if passes.len() == 0 {
        seq![]
    } else {
        let before = saves_at(last_save, passes.drop_last());
        if super::is_due(last_saved(last_save, before), passes.last()) {
            before.push(passes.last())
        } else {
            before
        }
    }
}

/// When the report was last saved, after the given saves.
pub open spec fn last_saved(last_save: Moment, saves: Seq<Moment>) -> Moment {
    if saves.len() > 0 {
        saves.last()
    } else {
        last_save
    }
}

/// Two successive saves are at least [`super::SAVE_INTERVAL`] apart.
pub proof fn saves_are_apart(last_save: Moment, passes: Seq<Moment>, i: int)
    requires
        0 <= i,
        i + 1 < saves_at(last_save, passes).len(),
    ensures
        saves_at(last_save, passes)[i + 1].total_nanos() - saves_at(
            last_save,
            passes,
        )[i].total_nanos() >= super::SAVE_INTERVAL * (crate::moment::NANOS_PER_SECOND as int),
    decreases passes.len(),
{
    if passes.len() > 0 {
        let before = saves_at(last_save, passes.drop_last());
        if i + 1 < before.len() {
            saves_are_apart(last_save, passes.drop_last(), i);
        }
    }
}

/// The end of a pass that is no dry run is a save exactly when it is one of
/// [`saves_at`]: whatever was found plays no part.
pub proof fn only_time_decides_on_saves(monitor: Monitor, last_save: Moment, passes: Seq<Moment>)
    requires
        passes.len() > 0,
        monitor.last_save == last_saved(last_save, saves_at(last_save, passes.drop_last())),
    ensures
        monitor.is_save_due(passes.last()) == (saves_at(last_save, passes).len() > saves_at(
            last_save,
            passes.drop_last(),
        ).len()),
{
}

} // verus!
