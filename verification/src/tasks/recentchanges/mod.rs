//! Maintenance task: edits that add `utm_source` tracking parameters.
//!
//! Scans recent changes, keeps edits by low-edit-count users whose diff adds
//! a URL with an `utm_source` parameter, and renders a table with diff links.

use vstd::prelude::*;

use crate::json::Json;
use crate::moment::Moment;
use crate::number::decimal_text;
use crate::request::{build_params, Params};
use crate::text::{contains, joined, lowered, split_at_each, to_chars};
use crate::titles::{unique, TitleSet};

pub mod laws;
pub mod pass;
pub mod reading_laws;

verus! {

/// How often to save the accumulated report, in seconds.
pub const SAVE_INTERVAL: u32 = 7200;

/// How often to poll `recentchanges`, in seconds.
pub const POLL_INTERVAL: u64 = 30;

/// Maximum number of edits a user may have to be considered a suspect.
pub const EDIT_COUNT_LIMIT: u64 = 100;

/// How many recent changes to fetch per poll.
pub const RC_PAGE_SIZE: u64 = 50;

/// How many users to check per request.
pub const BATCH_SIZE: usize = 50;

/// A recent edit with the metadata needed to check and report it.
#[derive(Debug, PartialEq, Eq)]
pub struct Edit {
    pub title: String,
    pub user: Option<String>,
    pub revid: u64,
    /// The revision before the edit, zero for a new page.
    pub old_revid: Option<u64>,
    pub timestamp: Moment,
}

/// The contents of an [`Edit`].
#[verifier::ext_equal]
pub struct EditView {
    pub title: Seq<char>,
    pub user: Option<Seq<char>>,
    pub revid: u64,
    pub old_revid: Option<u64>,
    pub timestamp: Moment,
}

impl View for Edit {
    type V = EditView;

    open spec fn view(&self) -> EditView {
        EditView {
            title: self.title@,
            user: crate::text::optional_text(self.user),
            revid: self.revid,
            old_revid: self.old_revid,
            timestamp: self.timestamp,
        }
    }
}

impl Clone for Edit {
    fn clone(&self) -> (copy: Self)
        ensures
            copy@ == self@,
    {
        let user: Option<String> = match &self.user {
            Some(name) => Some(name.clone()),
            None => None,
        };
        Edit {
            title: self.title.clone(),
            user,
            revid: self.revid,
            old_revid: self.old_revid,
            timestamp: self.timestamp,
        }
    }
}

/// The contents of a sequence of edits.
pub open spec fn edit_views(edits: Seq<Edit>) -> Seq<EditView> {
    edits.map_values(|edit: Edit| edit@)
}

/// The parameters of a question for the recent changes since a time. They are
/// asked for from the oldest on, so that none is passed over where there are
/// more than [`RC_PAGE_SIZE`].
pub open spec fn recent_changes_params(since: Seq<char>) -> Seq<(Seq<char>, Seq<char>)> {
    seq![
        ("action"@, "query"@),
        ("list"@, "recentchanges"@),
        ("rcprop"@, "ids|title|user|timestamp"@),
        ("rclimit"@, crate::number::decimal(RC_PAGE_SIZE as nat)),
        ("rcdir"@, "newer"@),
        ("rcstart"@, since),
    ]
}

/// Request the recent changes since a time, given in the notation of the API.
pub fn recent_changes_from(since: &str) -> (params: Params)
    ensures
        crate::request::param_views(params@) == recent_changes_params(since@),
{
    let limit = decimal_text(RC_PAGE_SIZE);
    let params = build_params(
        &[
            ("action", "query"),
            ("list", "recentchanges"),
            ("rcprop", "ids|title|user|timestamp"),
            ("rclimit", limit.as_str()),
            ("rcdir", "newer"),
            ("rcstart", since),
        ],
    );
    params
}

/// Request the recent changes since `since`, at most [`RC_PAGE_SIZE`].
pub fn recent_changes_request(since: Moment) -> (params: Params)
    requires
        since.is_valid(),
    ensures
        crate::request::param_views(params@) == recent_changes_params(
            crate::moment::utc_text(since.secs, since.nanos, "%Y-%m-%dT%H:%M:%SZ"@),
        ),
{
    let text = since.api_text();
    recent_changes_from(text.as_str())
}

/// The time that a timestamp names, or the present where it names none.
pub open spec fn time_of(value: Option<Seq<char>>, now: Moment) -> Moment {
    let read = match value {
        Some(text) => crate::moment::rfc3339_moment(text),
        None => None,
    };
    match read {
        Some(at) => at,
        None => now,
    }
}

/// Parse a `MediaWiki` timestamp into a UTC timestamp.
pub fn parse_timestamp(value: Option<&str>, now: Moment) -> (at: Moment)
    ensures
        at == time_of(
            match value {
                Some(text) => Some(text@),
                None => None,
            },
            now,
        ),
        now.is_valid() ==> at.is_valid(),
{
    match value {
        Some(text) => match Moment::from_rfc3339(text) {
            Some(at) => at,
            None => now,
        },
        None => now,
    }
}

/// The edit that an item of the recent changes describes, made at the given
/// time.
pub open spec fn edit_at(item: Json, timestamp: Moment) -> Option<EditView> {
    match (item.member("revid"@).unsigned(), item.member("title"@).text()) {
        (Some(revid), Some(title)) => Some(
            EditView {
                title,
                user: item.member("user"@).text(),
                revid,
                old_revid: item.member("old_revid"@).unsigned(),
                timestamp,
            },
        ),
        _ => None,
    }
}

/// The edit that an item of the recent changes describes.
pub open spec fn edit_of(item: Json, now: Moment) -> Option<EditView> {
    edit_at(item, time_of(item.member("timestamp"@).text(), now))
}

/// The edits that items of the recent changes describe, in order.
pub open spec fn edits_of(items: Seq<Json>, now: Moment) -> Seq<EditView> {
    items.filter_map(|item: Json| edit_of(item, now))
}

/// Read an item of the recent changes, made at the given time. An item without
/// a revision or a title is none.
pub fn read_edit(item: &Json, timestamp: Moment) -> (edit: Option<Edit>)
    ensures
        match edit {
            Some(edit) => edit_at(*item, timestamp) == Some(edit@),
            None => edit_at(*item, timestamp) is None,
        },
{
    match (item.get("revid").as_u64(), item.get("title").as_str()) {
        (Some(revid), Some(title)) => {
            let user: Option<String> = match item.get("user").as_str() {
                Some(name) => Some(name.to_owned()),
                None => None,
            };
            Some(
                Edit {
                    title: title.to_owned(),
                    user,
                    revid,
                    old_revid: item.get("old_revid").as_u64(),
                    timestamp,
                },
            )
        },
        _ => None,
    }
}

/// Edits in the order newest first, with another one put in its place, in front
/// of those of the same time.
pub open spec fn with_edit(edits: Seq<EditView>, edit: EditView) -> Seq<EditView>
    decreases edits.len(),
{
    if edits.len() > 0 && !edits.last().timestamp.after(edit.timestamp) {
        with_edit(edits.drop_last(), edit).push(edits.last())
    } else {
        edits.push(edit)
    }
}

/// The edits in the order newest first. Of those of the same time, the last
/// comes first.
pub open spec fn newest_first(edits: Seq<EditView>) -> Seq<EditView>
    decreases edits.len(),
{
    if edits.len() == 0 {
        seq![]
    } else {
        with_edit(newest_first(edits.drop_last()), edits.last())
    }
}

/// Whether no edit was made after the one before it.
pub open spec fn is_newest_first(edits: Seq<EditView>) -> bool {
    forall|i: int, j: int|
        0 <= i < j < edits.len() ==> !(#[trigger] edits[j]).timestamp.after(
            (#[trigger] edits[i]).timestamp,
        )
}

/// The first edits, at most [`RC_PAGE_SIZE`].
pub open spec fn one_page(edits: Seq<EditView>) -> Seq<EditView> {
    if edits.len() < RC_PAGE_SIZE {
        edits
    } else {
        edits.take(RC_PAGE_SIZE as int)
    }
}

/// The first edits that a response describes, at most [`RC_PAGE_SIZE`], newest
/// first.
pub open spec fn edits_in(resp: Json, now: Moment) -> Seq<EditView> {
    newest_first(
        one_page(edits_of(resp.member("query"@).member("recentchanges"@).elements(), now)),
    )
}

/// Putting an edit in its place adds that edit, and keeps the order.
proof fn lemma_with_edit(edits: Seq<EditView>, edit: EditView)
    ensures
        with_edit(edits, edit).len() == edits.len() + 1,
        forall|v: EditView| #[trigger]
            with_edit(edits, edit).contains(v) == (edits.contains(v) || v == edit),
        is_newest_first(edits) ==> is_newest_first(with_edit(edits, edit)),
    decreases edits.len(),
{
    let out = with_edit(edits, edit);
    if edits.len() > 0 && !edits.last().timestamp.after(edit.timestamp) {
        let rest = edits.drop_last();
        lemma_with_edit(rest, edit);
        let front = with_edit(rest, edit);
        assert(edits =~= rest.push(edits.last()));
        assert forall|v: EditView| #[trigger] out.contains(v) == (edits.contains(v) || v
            == edit) by {
            crate::titles::lemma_push_contains(front, edits.last(), v);
            crate::titles::lemma_push_contains(rest, edits.last(), v);
        }
        if is_newest_first(edits) {
            assert(is_newest_first(rest)) by {
                assert forall|i: int, j: int| 0 <= i < j < rest.len() implies !(
                #[trigger] rest[j]).timestamp.after((#[trigger] rest[i]).timestamp) by {
                    assert(rest[i] == edits[i] && rest[j] == edits[j]);
                }
            }
            assert forall|i: int, j: int| 0 <= i < j < out.len() implies !(
            #[trigger] out[j]).timestamp.after((#[trigger] out[i]).timestamp) by {
                if j < front.len() {
                    assert(out[i] == front[i] && out[j] == front[j]);
                } else {
                    assert(front.contains(out[i]));
                    if rest.contains(out[i]) {
                        let k = rest.index_of(out[i]);
                        assert(edits[k] == out[i]);
                        assert(!edits[edits.len() - 1].timestamp.after(edits[k].timestamp));
                    }
                }
            }
        }
    } else {
        assert forall|v: EditView| #[trigger] out.contains(v) == (edits.contains(v) || v
            == edit) by {
            crate::titles::lemma_push_contains(edits, edit, v);
        }
        if is_newest_first(edits) {
            assert forall|i: int, j: int| 0 <= i < j < out.len() implies !(
            #[trigger] out[j]).timestamp.after((#[trigger] out[i]).timestamp) by {
                if j < edits.len() {
                    assert(out[i] == edits[i] && out[j] == edits[j]);
                } else if i < edits.len() - 1 {
                    assert(!edits[edits.len() - 1].timestamp.after(edits[i].timestamp));
                }
            }
        }
    }
}

/// Sorting edits loses none and makes up none, and gives the order newest
/// first.
pub proof fn sorting_edits_keeps_them(edits: Seq<EditView>)
    ensures
        newest_first(edits).len() == edits.len(),
        forall|v: EditView| #[trigger] newest_first(edits).contains(v) == edits.contains(v),
        is_newest_first(newest_first(edits)),
    decreases edits.len(),
{
    if edits.len() > 0 {
        let rest = edits.drop_last();
        sorting_edits_keeps_them(rest);
        lemma_with_edit(newest_first(rest), edits.last());
        assert(edits =~= rest.push(edits.last()));
        assert forall|v: EditView| #[trigger] newest_first(edits).contains(v) == edits.contains(
            v,
        ) by {
            crate::titles::lemma_push_contains(rest, edits.last(), v);
            assert(newest_first(rest).contains(v) == rest.contains(v));
        }
    }
}

fn put_edit(edits: &mut Vec<Edit>, edit: Edit)
    ensures
        edit_views(final(edits)@) == with_edit(edit_views(old(edits)@), edit@),
        (forall|i: int|
            0 <= i < old(edits)@.len() ==> (#[trigger] old(edits)@[i]).timestamp.is_valid())
            && edit.timestamp.is_valid() ==> forall|i: int|
            0 <= i < final(edits)@.len() ==> (#[trigger] final(edits)@[i]).timestamp.is_valid(),
{
    let ghost views = edit_views(edits@);
    let mut place: usize = edits.len();
    assert(views.take(place as int) =~= views);
    assert(views.skip(place as int) =~= seq![]);
    assert(with_edit(views, edit@) =~= with_edit(views.take(place as int), edit@) + views.skip(
        place as int,
    ));
    while place > 0 && !edits[place - 1].timestamp.is_after(edit.timestamp)
        invariant
            place <= edits@.len(),
            views == edit_views(edits@),
            edits@ == old(edits)@,
            with_edit(views, edit@) == with_edit(views.take(place as int), edit@) + views.skip(
                place as int,
            ),
        decreases place,
    {
        place -= 1;
        proof {
            let held = views.take(place + 1);
            assert(held.drop_last() =~= views.take(place as int));
            assert(held.last() == edits@[place as int]@);
            assert(with_edit(held, edit@) == with_edit(views.take(place as int), edit@).push(
                held.last(),
            ));
            assert(with_edit(views.take(place as int), edit@).push(held.last()) + views.skip(
                place + 1,
            ) =~= with_edit(views.take(place as int), edit@) + views.skip(place as int));
        }
    }
    proof {
        let held = views.take(place as int);
        if place > 0 {
            assert(held.last() == edits@[place - 1]@);
        }
        assert(with_edit(held, edit@) == held.push(edit@));
    }
    edits.insert(place, edit);
    proof {
        assert(edit_views(edits@) =~= views.take(place as int).push(edit@) + views.skip(
            place as int,
        ));
        assert forall|i: int|
            (forall|k: int|
                0 <= k < old(edits)@.len() ==> (#[trigger] old(edits)@[k]).timestamp.is_valid())
                && edit.timestamp.is_valid() && 0 <= i < edits@.len() implies (
        #[trigger] edits@[i]).timestamp.is_valid() by {
            if i < place {
                assert(edits@[i] == old(edits)@[i]);
            } else if i > place {
                assert(edits@[i] == old(edits)@[i - 1]);
            }
        }
    }
}

fn read_edits(items: &[Json], now: Moment) -> (edits: Vec<Edit>)
    ensures
        edit_views(edits@) == edits_of(items@, now),
        now.is_valid() ==> forall|i: int|
            0 <= i < edits@.len() ==> (#[trigger] edits@[i]).timestamp.is_valid(),
{
    let mut edits: Vec<Edit> = Vec::new();
    let mut i: usize = 0;
    assert(edit_views(edits@) =~= edits_of(items@.take(0), now));
    while i < items.len()
        invariant
            i <= items@.len(),
            edit_views(edits@) == edits_of(items@.take(i as int), now),
            now.is_valid() ==> forall|k: int|
                0 <= k < edits@.len() ==> (#[trigger] edits@[k]).timestamp.is_valid(),
        decreases items@.len() - i,
    {
        proof {
            items@.lemma_filter_map_take_succ(|item: Json| edit_of(item, now), i as int);
        }
        let ghost before = edits@;
        let timestamp = parse_timestamp(items[i].get("timestamp").as_str(), now);
        if let Some(edit) = read_edit(&items[i], timestamp) {
            assert(edit.timestamp == edit@.timestamp);
            edits.push(edit);
            assert(edit_views(edits@) =~= edit_views(before).push(edit@));
        }
        i += 1;
    }
    assert(items@.take(i as int) =~= items@);
    edits
}

fn sort_edits(edits: &[Edit]) -> (sorted: Vec<Edit>)
    ensures
        edit_views(sorted@) == newest_first(edit_views(edits@)),
        (forall|i: int| 0 <= i < edits@.len() ==> (#[trigger] edits@[i]).timestamp.is_valid())
            ==> forall|i: int|
            0 <= i < sorted@.len() ==> (#[trigger] sorted@[i]).timestamp.is_valid(),
{
    let ghost views = edit_views(edits@);
    let mut sorted: Vec<Edit> = Vec::new();
    let mut i: usize = 0;
    assert(edit_views(sorted@) =~= newest_first(views.take(0)));
    while i < edits.len()
        invariant
            i <= edits@.len(),
            views == edit_views(edits@),
            edit_views(sorted@) == newest_first(views.take(i as int)),
            (forall|k: int| 0 <= k < edits@.len() ==> (#[trigger] edits@[k]).timestamp.is_valid())
                ==> forall|k: int|
                0 <= k < sorted@.len() ==> (#[trigger] sorted@[k]).timestamp.is_valid(),
        decreases edits@.len() - i,
    {
        let edit = edits[i].clone();
        proof {
            assert(views.take(i + 1).drop_last() =~= views.take(i as int));
            assert(views.take(i + 1).last() == edit@);
            assert(edit.timestamp == edit@.timestamp);
        }
        put_edit(&mut sorted, edit);
        i += 1;
    }
    assert(views.take(i as int) =~= views);
    sorted
}

/// Read the recent changes, newest first, at most [`RC_PAGE_SIZE`]. Items
/// without a revision or a title are skipped; an item without a readable time
/// counts as made now.
pub fn recent_changes(resp: &Json, now: Moment) -> (edits: Vec<Edit>)
    ensures
        edit_views(edits@) == edits_in(*resp, now),
        is_newest_first(edit_views(edits@)),
        edits@.len() <= RC_PAGE_SIZE,
        now.is_valid() ==> forall|i: int|
            0 <= i < edits@.len() ==> (#[trigger] edits@[i]).timestamp.is_valid(),
{
    let items = resp.get("query").get("recentchanges").items();
    let mut edits = read_edits(items, now);
    let ghost all = edits_of(items@, now);
    assert(edit_views(edits@).len() == edits@.len());
    if edits.len() > RC_PAGE_SIZE as usize {
        edits.truncate(RC_PAGE_SIZE as usize);
    }
    proof {
        assert(edit_views(edits@) =~= one_page(all));
        sorting_edits_keeps_them(one_page(all));
    }
    let sorted = sort_edits(edits.as_slice());
    assert(edit_views(sorted@).len() == sorted@.len());
    sorted
}

/// The users who made the edits.
pub open spec fn users_of(edits: Seq<EditView>) -> Seq<Seq<char>> {
    edits.filter_map(|edit: EditView| edit.user)
}

/// List the users who made the edits, each once.
pub fn users_to_look_up(edits: &[Edit]) -> (users: Vec<String>)
    ensures
        crate::text::texts(users@) == crate::titles::unique_of(users_of(edit_views(edits@))),
{
    let ghost views = edit_views(edits@);
    let mut names: Vec<String> = Vec::new();
    let mut i: usize = 0;
    assert(crate::text::texts(names@) =~= users_of(views.take(0)));
    while i < edits.len()
        invariant
            i <= edits@.len(),
            views == edit_views(edits@),
            crate::text::texts(names@) == users_of(views.take(i as int)),
        decreases edits@.len() - i,
    {
        proof {
            views.lemma_filter_map_take_succ(|edit: EditView| edit.user, i as int);
        }
        let ghost before = names@;
        if let Some(name) = &edits[i].user {
            let name: String = name.clone();
            names.push(name);
            assert(crate::text::texts(names@) =~= crate::text::texts(before).push(name@));
        }
        i += 1;
    }
    assert(views.take(i as int) =~= views);
    unique(names.as_slice())
}

/// The parameters of a question for the edit counts of users.
pub open spec fn edit_counts_params(users: Seq<Seq<char>>) -> Seq<(Seq<char>, Seq<char>)> {
    seq![
        ("action"@, "query"@),
        ("list"@, "users"@),
        ("ususers"@, crate::text::join(users, "|"@)),
        ("usprop"@, "editcount"@),
    ]
}

/// Request the edit counts of users.
pub fn edit_counts_request(users: &[String]) -> (params: Params)
    ensures
        crate::request::param_views(params@) == edit_counts_params(crate::text::texts(users@)),
{
    let list = joined(users, "|");
    let params = build_params(
        &[
            ("action", "query"),
            ("list", "users"),
            ("ususers", list.as_str()),
            ("usprop", "editcount"),
        ],
    );
    params
}

/// The name of a user in a response, empty where there is none.
pub open spec fn name_of(user: Json) -> Seq<char> {
    match user.member("name"@).text() {
        Some(name) => name,
        None => seq![],
    }
}

/// Whether a response gives a user few enough edits. A user without a count is
/// taken to have many.
pub open spec fn has_few_edits(user: Json) -> bool {
    match user.member("editcount"@).unsigned() {
        Some(n) => n <= EDIT_COUNT_LIMIT,
        None => false,
    }
}

/// Whether a response names someone with few edits.
pub open spec fn names_newcomer(users: Seq<Json>, name: Seq<char>) -> bool {
    exists|i: int|
        0 <= i < users.len() && has_few_edits(#[trigger] users[i]) && name_of(users[i]) == name
}

/// The users with few edits that a response names.
pub open spec fn newcomers_in(resp: Json) -> Set<Seq<char>> {
    Set::new(
        |name: Seq<char>|
            names_newcomer(resp.member("query"@).member("users"@).elements(), name),
    )
}

/// Add the users with few edits that a response names.
pub fn add_newcomers(newcomers: &mut TitleSet, resp: &Json)
    ensures
        final(newcomers)@ == old(newcomers)@.union(newcomers_in(*resp)),
{
    let users = resp.get("query").get("users").items();
    let mut i: usize = 0;
    while i < users.len()
        invariant
            i <= users@.len(),
            forall|name: Seq<char>| #[trigger]
                newcomers@.contains(name) == (old(newcomers)@.contains(name) || names_newcomer(
                    users@.take(i as int),
                    name,
                )),
        decreases users@.len() - i,
    {
        let ghost before = newcomers@;
        let ghost seen = users@.take(i as int);
        let ghost user = users@[i as int];
        let name: String = match users[i].get("name").as_str() {
            Some(name) => name.to_owned(),
            None => String::new(),
        };
        assert(name@ =~= name_of(user));
        let few: bool = match users[i].get("editcount").as_u64() {
            Some(n) => n <= EDIT_COUNT_LIMIT,
            None => false,
        };
        if few {
            newcomers.insert(name);
        }
        i += 1;
        proof {
            let now = users@.take(i as int);
            assert forall|n: Seq<char>| #[trigger]
                newcomers@.contains(n) == (old(newcomers)@.contains(n) || names_newcomer(
                    now,
                    n,
                )) by {
                assert(newcomers@.contains(n) == (before.contains(n) || (has_few_edits(user)
                    && name_of(user) == n)));
                if names_newcomer(now, n) {
                    let k = choose|k: int|
                        0 <= k < now.len() && has_few_edits(#[trigger] now[k]) && name_of(now[k])
                            == n;
                    if k < i - 1 {
                        assert(seen[k] == now[k]);
                    } else {
                        assert(now[k] == user);
                    }
                }
                if names_newcomer(seen, n) {
                    let k = choose|k: int|
                        0 <= k < seen.len() && has_few_edits(#[trigger] seen[k]) && name_of(
                            seen[k],
                        ) == n;
                    assert(seen[k] == now[k]);
                }
                if has_few_edits(user) && name_of(user) == n {
                    assert(now[i - 1] == user);
                }
            }
        }
    }
    assert(users@.take(i as int) =~= users@);
    assert(newcomers@ =~= old(newcomers)@.union(newcomers_in(*resp)));
}

/// Whether an edit was made by one of the users.
pub open spec fn is_made_by(edit: EditView, users: Set<Seq<char>>) -> bool {
    match edit.user {
        Some(name) => users.contains(name),
        None => false,
    }
}

/// Keep only edits by users with few total edits.
pub fn filter_by_edit_count(edits: &[Edit], newcomers: &TitleSet) -> (kept: Vec<Edit>)
    ensures
        edit_views(kept@) == edit_views(edits@).filter(
            |edit: EditView| is_made_by(edit, newcomers@),
        ),
        (forall|i: int| 0 <= i < edits@.len() ==> (#[trigger] edits@[i]).timestamp.is_valid())
            ==> forall|i: int| 0 <= i < kept@.len() ==> (#[trigger] kept@[i]).timestamp.is_valid(),
{
    let ghost views = edit_views(edits@);
    let ghost pick = |edit: EditView| is_made_by(edit, newcomers@);
    let mut kept: Vec<Edit> = Vec::new();
    let mut i: usize = 0;
    proof {
        reveal(Seq::filter);
        assert(edit_views(kept@) =~= views.take(0).filter(pick));
    }
    while i < edits.len()
        invariant
            i <= edits@.len(),
            views == edit_views(edits@),
            pick == (|edit: EditView| is_made_by(edit, newcomers@)),
            edit_views(kept@) == views.take(i as int).filter(pick),
            (forall|k: int| 0 <= k < edits@.len() ==> (#[trigger] edits@[k]).timestamp.is_valid())
                ==> forall|k: int|
                0 <= k < kept@.len() ==> (#[trigger] kept@[k]).timestamp.is_valid(),
        decreases edits@.len() - i,
    {
        proof {
            reveal(Seq::filter);
            assert(views.take(i + 1).drop_last() =~= views.take(i as int));
        }
        let ghost before = kept@;
        let edit: &Edit = &edits[i];
        let wanted: bool = match &edit.user {
            Some(name) => newcomers.contains(name.as_str()),
            None => false,
        };
        if wanted {
            let copy = edit.clone();
            assert(copy.timestamp == copy@.timestamp);
            assert(edit.timestamp == edits@[i as int].timestamp);
            kept.push(copy);
            assert(edit_views(kept@) =~= edit_views(before).push(copy@));
        }
        i += 1;
    }
    assert(views.take(i as int) =~= views);
    kept
}

/// How to find out whether an edit adds the parameter.
#[derive(Debug, Clone, Copy, PartialEq, Eq, Structural)]
pub enum Check {
    /// Read the wikitext of this revision.
    Revision(u64),
    /// Compare the first revision with the second.
    Diff(u64, u64),
    /// There is nothing to check.
    Nothing,
}

/// Decide how to check an edit. For new page creations (`old_revid` is `0`) the
/// initial revision is checked directly, since there is no previous version to
/// diff against.
pub fn check_for(edit: &Edit) -> (check: Check)
    ensures
        check == (match edit.old_revid {
            Some(0) => Check::Revision(edit.revid),
            Some(old_revid) => Check::Diff(old_revid, edit.revid),
            None => Check::Nothing,
        }),
{
    match edit.old_revid {
        Some(0) => Check::Revision(edit.revid),
        Some(old_revid) => Check::Diff(old_revid, edit.revid),
        None => Check::Nothing,
    }
}

/// The parameters of a question for the wikitext of a revision.
pub open spec fn initial_revision_params(revid: nat) -> Seq<(Seq<char>, Seq<char>)> {
    seq![
        ("action"@, "query"@),
        ("prop"@, "revisions"@),
        ("rvprop"@, "content"@),
        ("rvslots"@, "main"@),
        ("revids"@, crate::number::decimal(revid)),
        ("formatversion"@, "2"@),
    ]
}

/// Request the wikitext of a revision.
pub fn initial_revision_request(revid: u64) -> (params: Params)
    ensures
        crate::request::param_views(params@) == initial_revision_params(revid as nat),
{
    let id = decimal_text(revid);
    let params = build_params(
        &[
            ("action", "query"),
            ("prop", "revisions"),
            ("rvprop", "content"),
            ("rvslots", "main"),
            ("revids", id.as_str()),
            ("formatversion", "2"),
        ],
    );
    params
}

/// The parameters of a question for the difference between two revisions.
pub open spec fn diff_params(old_revid: nat, revid: nat) -> Seq<(Seq<char>, Seq<char>)> {
    seq![
        ("action"@, "compare"@),
        ("fromrev"@, crate::number::decimal(old_revid)),
        ("torev"@, crate::number::decimal(revid)),
        ("formatversion"@, "2"@),
    ]
}

/// Request the difference between two revisions.
pub fn diff_request(old_revid: u64, revid: u64) -> (params: Params)
    ensures
        crate::request::param_views(params@) == diff_params(old_revid as nat, revid as nat),
{
    let from = decimal_text(old_revid);
    let to = decimal_text(revid);
    let params = build_params(
        &[
            ("action", "compare"),
            ("fromrev", from.as_str()),
            ("torev", to.as_str()),
            ("formatversion", "2"),
        ],
    );
    params
}

/// Whether a text holds `utm_source=chatgpt.com`, in any case.
pub open spec fn mentions_utm(s: Seq<char>) -> bool {
    crate::text::occurs(crate::text::lower(s), "utm_source=chatgpt.com"@)
}

fn has_utm(s: &[char]) -> (yes: bool)
    ensures
        yes == mentions_utm(s@),
{
    contains(lowered(s).as_slice(), to_chars("utm_source=chatgpt.com").as_slice())
}

/// Whether one of the added lines of a diff body holds the parameter. An added
/// line reaches from its mark to the end of its `<div>`.
pub open spec fn adds_utm(body: Seq<char>) -> bool {
    let segments = crate::text::split(body, "class=\"diff-addedline"@);
    exists|i: int|
        1 <= i < segments.len() && mentions_utm(
            crate::text::split(#[trigger] segments[i], "</div>"@)[0],
        )
}

/// Whether any added line in a diff body contains `utm_source=chatgpt.com`.
pub fn added_line_has_utm(body: &str) -> (yes: bool)
    ensures
        yes == adds_utm(body@),
{
    proof {
        reveal_strlit("class=\"diff-addedline");
        reveal_strlit("</div>");
        assert("class=\"diff-addedline"@.len() == 21);
        assert("</div>"@.len() == 6);
    }
    let chars = to_chars(body);
    let mark = to_chars("class=\"diff-addedline");
    let end = to_chars("</div>");
    let segments = split_at_each(chars.as_slice(), mark.as_slice());
    let ghost pieces = crate::text::split(body@, "class=\"diff-addedline"@);
    assert(crate::text::pieces(segments@).len() == segments@.len());
    let mut i: usize = 1;
    while i < segments.len()
        invariant
            1 <= i,
            end@ == "</div>"@,
            end@.len() == 6,
            pieces == crate::text::pieces(segments@),
            pieces == crate::text::split(body@, "class=\"diff-addedline"@),
            forall|k: int|
                1 <= k < i && k < pieces.len() ==> !mentions_utm(
                    crate::text::split(#[trigger] pieces[k], "</div>"@)[0],
                ),
        decreases segments@.len() - i,
    {
        assert(pieces[i as int] == segments@[i as int]@);
        let lines = split_at_each(segments[i], end.as_slice());
        assert(crate::text::pieces(lines@).len() == lines@.len());
        proof {
            crate::text::a_split_has_a_part(segments@[i as int]@, "</div>"@);
        }
        assert(crate::text::pieces(lines@)[0] == lines@[0]@);
        if has_utm(lines[0]) {
            return true;
        }
        i += 1;
    }
    false
}

/// Whether the wikitext of a revision in a response holds the parameter.
pub fn initial_revision_has_utm(resp: &Json) -> (yes: bool)
    ensures
        yes == mentions_utm(
            crate::api::content_of(resp.member("query"@).member("pages"@).element(0)),
        ),
{
    let content = crate::api::page_content(resp.get("query").get("pages").at(0));
    has_utm(to_chars(content.as_str()).as_slice())
}

/// The body of a diff in a response, empty where there is none.
pub open spec fn body_of(resp: Json) -> Seq<char> {
    match resp.member("compare"@).member("body"@).text() {
        Some(body) => body,
        None => seq![],
    }
}

/// Whether the diff in a response adds the parameter.
pub fn diff_has_utm(resp: &Json) -> (yes: bool)
    ensures
        yes == adds_utm(body_of(*resp)),
{
    match resp.get("compare").get("body").as_str() {
        Some(body) => added_line_has_utm(body),
        None => {
            let none = String::new();
            assert(none@ =~= body_of(*resp));
            added_line_has_utm(none.as_str())
        },
    }
}

/// Whether one of the edits made this revision.
pub open spec fn has_revision(edits: Seq<EditView>, revid: u64) -> bool {
    exists|i: int| 0 <= i < edits.len() && (#[trigger] edits[i]).revid == revid
}

/// The edits with more of them added, but for those whose revision is there
/// already.
pub open spec fn merged(edits: Seq<EditView>, more: Seq<EditView>) -> Seq<EditView>
    decreases more.len(),
{
    if more.len() == 0 {
        edits
    } else {
        let before = merged(edits, more.drop_last());
        if has_revision(before, more.last().revid) {
            before
        } else {
            before.push(more.last())
        }
    }
}

/// Whether a save is due, [`SAVE_INTERVAL`] after the last one.
pub open spec fn is_due(last_save: Moment, now: Moment) -> bool {
    now.total_nanos() - last_save.total_nanos() >= SAVE_INTERVAL * (
    crate::moment::NANOS_PER_SECOND as int)
}

/// What to do after a pass.
#[derive(Debug, Clone, Copy, PartialEq, Eq, Structural)]
pub enum Outcome {
    /// Print the report and stop.
    Print,
    /// Save the report, then wait for the next poll.
    Save,
    /// Wait for the next poll.
    Wait,
}

/// What the monitor remembers from poll to poll.
pub struct Monitor {
    /// From when on to read the recent changes.
    pub since: Moment,
    /// The edits that add the parameter.
    pub matching: Vec<Edit>,
    /// When the report was last saved.
    pub last_save: Moment,
}

impl Monitor {
    /// Whether all times lie within the calendar, and no revision is there
    /// twice.
    pub open spec fn is_valid(self) -> bool {
        &&& self.since.is_valid()
        &&& self.last_save.is_regular()
        &&& forall|i: int|
            0 <= i < self.matching@.len() ==> (#[trigger] self.matching@[i]).timestamp.is_valid()
        &&& forall|i: int, j: int|
            0 <= i < j < self.matching@.len() ==> (#[trigger] self.matching@[i]).revid != (
            #[trigger] self.matching@[j]).revid
    }

    /// Whether the report is to be saved.
    pub open spec fn is_save_due(self, now: Moment) -> bool {
        is_due(self.last_save, now)
    }

    /// Start monitoring two hours back. The report counts as last saved so long
    /// ago that it is saved on the first pass even when nothing matches.
    pub fn new(now: Moment) -> (monitor: Self)
        requires
            now.is_regular(),
            now.secs - SAVE_INTERVAL >= crate::moment::FIRST_SECOND,
        ensures
            monitor.is_valid(),
            monitor.since == (Moment { secs: (now.secs - SAVE_INTERVAL) as i64, nanos: now.nanos }),
            monitor.last_save == monitor.since,
            monitor.matching@.len() == 0,
    {
        let start = Moment { secs: now.secs - SAVE_INTERVAL as i64, nanos: now.nanos };
        Monitor { since: start, matching: Vec::new(), last_save: start }
    }

    /// Note the edits that a poll gave, newest first: the next one starts at the
    /// newest of them.
    pub fn polled(&mut self, edits: &[Edit])
        requires
            old(self).is_valid(),
            forall|i: int| 0 <= i < edits@.len() ==> (#[trigger] edits@[i]).timestamp.is_valid(),
        ensures
            final(self).is_valid(),
            final(self).since == (if edits@.len() > 0 {
                edits@[0].timestamp
            } else {
                old(self).since
            }),
            final(self).matching == old(self).matching,
            final(self).last_save == old(self).last_save,
    {
        if edits.len() > 0 {
            self.since = edits[0].timestamp;
        }
    }

    fn knows(&self, revid: u64) -> (yes: bool)
        ensures
            yes == has_revision(edit_views(self.matching@), revid),
    {
        let ghost views = edit_views(self.matching@);
        let mut i: usize = 0;
        while i < self.matching.len()
            invariant
                i <= self.matching@.len(),
                views == edit_views(self.matching@),
                forall|k: int| 0 <= k < i ==> (#[trigger] views[k]).revid != revid,
            decreases self.matching@.len() - i,
        {
            assert(views[i as int].revid == self.matching@[i as int].revid);
            if self.matching[i].revid == revid {
                return true;
            }
            i += 1;
        }
        false
    }

    /// Add the edits that were found to match, each revision once.
    pub fn add_matching(&mut self, found: &[Edit])
        requires
            old(self).is_valid(),
            forall|i: int| 0 <= i < found@.len() ==> (#[trigger] found@[i]).timestamp.is_valid(),
        ensures
            final(self).is_valid(),
            final(self).since == old(self).since,
            final(self).last_save == old(self).last_save,
            edit_views(final(self).matching@) == merged(
                edit_views(old(self).matching@),
                edit_views(found@),
            ),
    {
        let ghost start = edit_views(self.matching@);
        let ghost more = edit_views(found@);
        let mut i: usize = 0;
        assert(more.take(0) =~= seq![]);
        while i < found.len()
            invariant
                i <= found@.len(),
                more == edit_views(found@),
                start == edit_views(old(self).matching@),
                self.is_valid(),
                self.since == old(self).since,
                self.last_save == old(self).last_save,
                forall|k: int|
                    0 <= k < found@.len() ==> (#[trigger] found@[k]).timestamp.is_valid(),
                edit_views(self.matching@) == merged(start, more.take(i as int)),
            decreases found@.len() - i,
        {
            assert(more.take(i + 1).drop_last() =~= more.take(i as int));
            let ghost before = self.matching@;
            if !self.knows(found[i].revid) {
                let edit = found[i].clone();
                assert(edit.timestamp == edit@.timestamp && edit.revid == edit@.revid);
                assert(found@[i as int].timestamp == found@[i as int]@.timestamp);
                self.matching.push(edit);
                proof {
                    assert(edit_views(self.matching@) =~= edit_views(before).push(edit@));
                    assert forall|k: int| 0 <= k < before.len() implies (
                    #[trigger] self.matching@[k]).revid != edit.revid by {
                        assert(edit_views(before)[k].revid == before[k].revid);
                    }
                }
            }
            i += 1;
        }
        assert(more.take(i as int) =~= more);
    }

    /// Decide whether to save the report, which is saved every
    /// [`SAVE_INTERVAL`].
    pub fn save_due(&self, now: Moment) -> (due: bool)
        requires
            self.is_valid(),
            now.is_regular(),
        ensures
            due == self.is_save_due(now),
    {
        now.is_at_least_after(self.last_save, SAVE_INTERVAL)
    }

    /// End a pass with the edits that were found to match, and decide what to
    /// do. A dry run ends after its first pass. Where the report is to be
    /// saved, it counts as saved now.
    pub fn end_pass(&mut self, found: &[Edit], dry_run: bool, now: Moment) -> (outcome: Outcome)
        requires
            old(self).is_valid(),
            now.is_regular(),
            forall|i: int| 0 <= i < found@.len() ==> (#[trigger] found@[i]).timestamp.is_valid(),
        ensures
            final(self).is_valid(),
            final(self).since == old(self).since,
            edit_views(final(self).matching@) == merged(
                edit_views(old(self).matching@),
                edit_views(found@),
            ),
            outcome == (if dry_run {
                Outcome::Print
            } else if is_due(old(self).last_save, now) {
                Outcome::Save
            } else {
                Outcome::Wait
            }),
            final(self).last_save == (if outcome == Outcome::Save {
                now
            } else {
                old(self).last_save
            }),
    {
        self.add_matching(found);
        if dry_run {
            return Outcome::Print;
        }
        if self.save_due(now) {
            self.last_save = now;
            Outcome::Save
        } else {
            Outcome::Wait
        }
    }
}

/// The clock times of edits.
pub open spec fn clock_texts(edits: Seq<EditView>) -> Seq<Seq<char>> {
    edits.map_values(|edit: EditView| crate::moment::clock(edit.timestamp.secs))
}

/// How the report names a user.
pub open spec fn user_text(user: Option<Seq<char>>) -> Seq<char> {
    match user {
        Some(name) => name,
        None => "(匿名)"@,
    }
}

/// The table row of an edit.
pub open spec fn report_row(edit: EditView, clock: Seq<char>) -> Seq<char> {
    "|-\n| [[:"@ + edit.title + "]]\n| "@ + user_text(edit.user) + "\n| "@ + clock
        + " [[Special:Diff/"@ + crate::number::decimal(edit.revid as nat) + "|差分]]\n"@
}

/// The table rows of the edits.
pub open spec fn report_rows(edits: Seq<EditView>, clocks: Seq<Seq<char>>) -> Seq<char>
    decreases edits.len(),
{
    if edits.len() == 0 {
        seq![]
    } else {
        report_rows(edits.drop_last(), clocks) + report_row(
            edits.last(),
            clocks[edits.len() - 1],
        )
    }
}

/// What stands above the table rows.
pub open spec fn report_head(updated: Seq<char>) -> Seq<char> {
    "検知した編集です。\n\n最終更新: "@ + updated
        + " (UTC)\n\n{| class=\"wikitable sortable\"\n|-\n! ページ\n! 利用者\n! 差分\n"@
}

/// The wikitext of the report.
pub open spec fn report_text(
    edits: Seq<EditView>,
    clocks: Seq<Seq<char>>,
    updated: Seq<char>,
) -> Seq<char> {
    report_head(updated) + report_rows(edits, clocks) + "|}\n"@
}

fn write_row(out: &mut String, edit: &Edit, clock: &str)
    ensures
        final(out)@ == old(out)@ + report_row(edit@, clock@),
{
    out.append("|-\n| [[:");
    out.append(edit.title.as_str());
    out.append("]]\n| ");
    match &edit.user {
        Some(name) => out.append(name.as_str()),
        None => out.append("(匿名)"),
    }
    out.append("\n| ");
    out.append(clock);
    out.append(" [[Special:Diff/");
    out.append(decimal_text(edit.revid).as_str());
    out.append("|差分]]\n");
    assert(out@ =~= old(out)@ + report_row(edit@, clock@));
}

/// Render the report with the times as texts.
pub fn render_report(edits: &[Edit], clocks: &[String], updated: &str) -> (out: String)
    requires
        clocks@.len() == edits@.len(),
    ensures
        out@ == report_text(edit_views(edits@), crate::text::texts(clocks@), updated@),
{
    let ghost views = edit_views(edits@);
    let ghost times = crate::text::texts(clocks@);
    let mut out = "検知した編集です。\n\n最終更新: ".to_owned();
    out.append(updated);
    out.append(
        " (UTC)\n\n{| class=\"wikitable sortable\"\n|-\n! ページ\n! 利用者\n! 差分\n",
    );
    let ghost head = report_head(updated@);
    assert(out@ == head);
    let mut i: usize = 0;
    assert(out@ =~= head + report_rows(views.take(0), times));
    while i < edits.len()
        invariant
            i <= edits@.len(),
            clocks@.len() == edits@.len(),
            views == edit_views(edits@),
            times == crate::text::texts(clocks@),
            out@ == head + report_rows(views.take(i as int), times),
        decreases edits@.len() - i,
    {
        write_row(&mut out, &edits[i], clocks[i].as_str());
        i += 1;
        proof {
            let seen = views.take(i as int);
            assert(seen.drop_last() =~= views.take(i - 1));
            assert(seen.last() == edits@[i - 1]@);
            assert(times[i - 1] == clocks@[i - 1]@);
            assert(out@ =~= head + report_rows(seen, times));
        }
    }
    assert(views.take(i as int) =~= views);
    out.append("|}\n");
    out
}

/// Build the wikitext report listing matching edits.
#[must_use]
pub fn build_report(edits: &[Edit], updated: Moment) -> (out: String)
    requires
        updated.is_valid(),
        forall|i: int| 0 <= i < edits@.len() ==> (#[trigger] edits@[i]).timestamp.is_valid(),
    ensures
        out@ == report_text(
            edit_views(edits@),
            clock_texts(edit_views(edits@)),
            crate::moment::utc_text(updated.secs, updated.nanos, "%Y-%m-%d %H:%M"@),
        ),
{
    let ghost times = clock_texts(edit_views(edits@));
    let mut clocks: Vec<String> = Vec::new();
    let mut i: usize = 0;
    assert(crate::text::texts(clocks@) =~= times.take(0));
    while i < edits.len()
        invariant
            i <= edits@.len(),
            times == clock_texts(edit_views(edits@)),
            forall|k: int| 0 <= k < edits@.len() ==> (#[trigger] edits@[k]).timestamp.is_valid(),
            clocks@.len() == i,
            crate::text::texts(clocks@) == times.take(i as int),
        decreases edits@.len() - i,
    {
        let ghost before = clocks@;
        let clock = edits[i].timestamp.clock_text();
        clocks.push(clock);
        i += 1;
        assert(crate::text::texts(clocks@) =~= crate::text::texts(before).push(clock@));
        assert(times.take(i as int) =~= times.take(i - 1).push(times[i - 1]));
    }
    assert(times.take(i as int) =~= times);
    let text = updated.minute_text();
    render_report(edits, clocks.as_slice(), text.as_str())
}

} // verus!
