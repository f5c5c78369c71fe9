//! One pass of the monitor: which requests to make, and what follows from the
//! replies.

use vstd::prelude::*;

use super::{
    add_newcomers, check_for, diff_has_utm, diff_request, edit_counts_request,
    filter_by_edit_count, initial_revision_has_utm, initial_revision_request, recent_changes,
    recent_changes_request, users_to_look_up, Check, Edit, Monitor, BATCH_SIZE,
};
use crate::api::Failure;
use crate::batch::{batch, end_of_batch};
use crate::json::Json;
use crate::moment::Moment;
use crate::request::Params;
use crate::titles::TitleSet;

verus! {

/// A pass, by what it waits for.
pub enum Pass {
    /// The recent changes since a time.
    Polling { since: Moment },
    /// The edit counts of the users of the batch from `at` on.
    Users { edits: Vec<Edit>, users: Vec<String>, at: usize, newcomers: TitleSet },
    /// What the edit at `at` has added.
    Checking { suspects: Vec<Edit>, at: usize, matching: Vec<Edit> },
    /// Nothing: these are the edits that add the parameter.
    Ended { matching: Vec<Edit> },
}

/// The contents of a [`Pass`].
pub enum PassView {
    Polling { since: Moment },
    Users {
        edits: Seq<super::EditView>,
        users: Seq<Seq<char>>,
        at: int,
        newcomers: Set<Seq<char>>,
    },
    Checking { suspects: Seq<super::EditView>, at: int, matching: Seq<super::EditView> },
    Ended { matching: Seq<super::EditView> },
}

impl View for Pass {
    type V = PassView;

    open spec fn view(&self) -> PassView {
        match self {
            Pass::Polling { since } => PassView::Polling { since: *since },
            Pass::Users { edits, users, at, newcomers } => PassView::Users {
                edits: super::edit_views(edits@),
                users: crate::text::texts(users@),
                at: *at as int,
                newcomers: newcomers@,
            },
            Pass::Checking { suspects, at, matching } => PassView::Checking {
                suspects: super::edit_views(suspects@),
                at: *at as int,
                matching: super::edit_views(matching@),
            },
            Pass::Ended { matching } => PassView::Ended { matching: super::edit_views(matching@) },
        }
    }
}

/// Whether all edits were made at times within the calendar.
pub open spec fn are_dated(edits: Seq<super::EditView>) -> bool {
    forall|i: int| 0 <= i < edits.len() ==> (#[trigger] edits[i]).timestamp.is_valid()
}

impl PassView {
    /// Whether a pass waits for something that there is.
    pub open spec fn is_valid(self) -> bool {
        match self {
            PassView::Polling { since } => since.is_valid(),
            PassView::Users { edits, users, at, .. } => are_dated(edits) && 0 <= at < users.len(),
            PassView::Checking { suspects, at, matching } => {
                &&& are_dated(suspects)
                &&& are_dated(matching)
                &&& 0 <= at < suspects.len()
                &&& suspects[at].old_revid is Some
            },
            PassView::Ended { matching } => are_dated(matching),
        }
    }
}

/// The first edit from `at` on that there is something to check about.
pub open spec fn next_check(suspects: Seq<super::EditView>, at: int) -> int
    decreases suspects.len() - at,
{
    if at >= suspects.len() {
        suspects.len() as int
    } else if suspects[at].old_revid is Some {
        at
    } else {
        next_check(suspects, at + 1)
    }
}

/// A pass that goes on checking from `at` on, or has checked all.
pub open spec fn checking_on(
    suspects: Seq<super::EditView>,
    at: int,
    matching: Seq<super::EditView>,
) -> PassView {
    let next = next_check(suspects, at);
    if next < suspects.len() {
        PassView::Checking { suspects, at: next, matching }
    } else {
        PassView::Ended { matching }
    }
}

/// The edits made by newcomers.
pub open spec fn suspects_of(
    edits: Seq<super::EditView>,
    newcomers: Set<Seq<char>>,
) -> Seq<super::EditView> {
    edits.filter(|edit: super::EditView| super::is_made_by(edit, newcomers))
}

/// A pass that goes on asking for users at `at`, or has asked for all.
pub open spec fn users_on(
    edits: Seq<super::EditView>,
    users: Seq<Seq<char>>,
    at: int,
    newcomers: Set<Seq<char>>,
) -> PassView {
    if at < users.len() {
        PassView::Users { edits, users, at, newcomers }
    } else {
        checking_on(suspects_of(edits, newcomers), 0, seq![])
    }
}

/// Whether a response shows that an edit adds the parameter.
pub open spec fn shows_utm(edit: super::EditView, resp: Json) -> bool {
    match edit.old_revid {
        Some(old_revid) => if old_revid == 0 {
            super::mentions_utm(
                crate::api::content_of(resp.member("query"@).member("pages"@).element(0)),
            )
        } else {
            super::adds_utm(super::body_of(resp))
        },
        None => false,
    }
}

/// What becomes of a pass when the reply to its request comes in.
///
/// A poll that fails gives no edits. Where edit counts cannot be had, no edit
/// is suspected. An edit that cannot be checked is skipped.
pub open spec fn pass_after(pass: PassView, reply: Result<Json, Failure>, now: Moment) -> PassView {
    match (pass, reply) {
        (PassView::Polling { .. }, Ok(resp)) => {
            let edits = super::edits_in(resp, now);
            users_on(edits, crate::titles::unique_of(super::users_of(edits)), 0, Set::empty())
        },
        (PassView::Polling { .. }, Err(_)) => PassView::Ended { matching: seq![] },
        (PassView::Users { edits, users, at, newcomers }, Ok(resp)) => {
            users_on(
                edits,
                users,
                crate::batch::batch_end(at, BATCH_SIZE as int, users.len() as int),
                newcomers.union(super::newcomers_in(resp)),
            )
        },
        (PassView::Users { .. }, Err(_)) => PassView::Ended { matching: seq![] },
        (PassView::Checking { suspects, at, matching }, Ok(resp)) => {
            checking_on(
                suspects,
                at + 1,
                if shows_utm(suspects[at], resp) {
                    matching.push(suspects[at])
                } else {
                    matching
                },
            )
        },
        (PassView::Checking { suspects, at, matching }, Err(_)) => {
            checking_on(suspects, at + 1, matching)
        },
        (PassView::Ended { .. }, _) => pass,
    }
}

/// From when on the next pass reads the recent changes.
pub open spec fn since_after(
    pass: PassView,
    reply: Result<Json, Failure>,
    now: Moment,
    since: Moment,
) -> Moment {
    match (pass, reply) {
        (PassView::Polling { .. }, Ok(resp)) => {
            let edits = super::edits_in(resp, now);
            if edits.len() > 0 {
                edits[0].timestamp
            } else {
                since
            }
        },
        _ => since,
    }
}

/// The parameters of the request that a pass waits for.
pub open spec fn pass_params(pass: PassView) -> Option<Seq<(Seq<char>, Seq<char>)>> {
    match pass {
        PassView::Polling { since } => Some(
            super::recent_changes_params(
                crate::moment::utc_text(since.secs, since.nanos, "%Y-%m-%dT%H:%M:%SZ"@),
            ),
        ),
        PassView::Users { users, at, .. } => Some(
            super::edit_counts_params(crate::batch::batch_of(users, at, BATCH_SIZE as int)),
        ),
        PassView::Checking { suspects, at, .. } => {
            let edit = suspects[at];
            match edit.old_revid {
                Some(old_revid) => if old_revid == 0 {
                    Some(super::initial_revision_params(edit.revid as nat))
                } else {
                    Some(super::diff_params(old_revid as nat, edit.revid as nat))
                },
                None => None,
            }
        },
        PassView::Ended { .. } => None,
    }
}

fn check_on(suspects: Vec<Edit>, at: usize, matching: Vec<Edit>) -> (pass: Pass)
    requires
        at <= suspects@.len(),
        are_dated(super::edit_views(suspects@)),
        are_dated(super::edit_views(matching@)),
    ensures
        pass@ == checking_on(
            super::edit_views(suspects@),
            at as int,
            super::edit_views(matching@),
        ),
        pass@.is_valid(),
{
    let ghost views = super::edit_views(suspects@);
    let mut k: usize = at;
    while k < suspects.len() && suspects[k].old_revid.is_none()
        invariant
            at <= k <= suspects@.len(),
            views == super::edit_views(suspects@),
            next_check(views, at as int) == next_check(views, k as int),
        decreases suspects@.len() - k,
    {
        assert(views[k as int].old_revid == suspects@[k as int].old_revid);
        k += 1;
    }
    if k < suspects.len() {
        assert(views[k as int].old_revid == suspects@[k as int].old_revid);
        Pass::Checking { suspects, at: k, matching }
    } else {
        Pass::Ended { matching }
    }
}

fn ask_on(edits: Vec<Edit>, users: Vec<String>, at: usize, newcomers: TitleSet) -> (pass: Pass)
    requires
        are_dated(super::edit_views(edits@)),
        at <= users@.len(),
    ensures
        pass@ == users_on(
            super::edit_views(edits@),
            crate::text::texts(users@),
            at as int,
            newcomers@,
        ),
        pass@.is_valid(),
{
    if at < users.len() {
        Pass::Users { edits, users, at, newcomers }
    } else {
        proof {
            lemma_dated(edits@);
        }
        let suspects = filter_by_edit_count(edits.as_slice(), &newcomers);
        proof {
            lemma_dated(suspects@);
        }
        let none: Vec<Edit> = Vec::new();
        assert(super::edit_views(none@) =~= seq![]);
        check_on(suspects, 0, none)
    }
}

proof fn lemma_dated(edits: Seq<Edit>)
    ensures
        are_dated(super::edit_views(edits)) == (forall|i: int|
            0 <= i < edits.len() ==> (#[trigger] edits[i]).timestamp.is_valid()),
{
    let views = super::edit_views(edits);
    if are_dated(views) {
        assert forall|i: int| 0 <= i < edits.len() implies (
        #[trigger] edits[i]).timestamp.is_valid() by {
            assert(views[i].timestamp.is_valid());
        }
    }
    if forall|i: int| 0 <= i < edits.len() ==> (#[trigger] edits[i]).timestamp.is_valid() {
        assert forall|i: int| 0 <= i < views.len() implies (
        #[trigger] views[i]).timestamp.is_valid() by {
            assert(edits[i].timestamp.is_valid());
        }
    }
}

fn response_shows_utm(edit: &Edit, resp: &Json) -> (yes: bool)
    ensures
        yes == shows_utm(edit@, *resp),
{
    match check_for(edit) {
        Check::Revision(_) => initial_revision_has_utm(resp),
        Check::Diff(_, _) => diff_has_utm(resp),
        Check::Nothing => false,
    }
}

impl Pass {
    /// Start a pass.
    pub fn start(monitor: &Monitor) -> (pass: Pass)
        requires
            monitor.is_valid(),
        ensures
            pass@ == (PassView::Polling { since: monitor.since }),
            pass@.is_valid(),
    {
        Pass::Polling { since: monitor.since }
    }

    /// The request that the pass waits for, unless it has ended.
    pub fn request(&self) -> (params: Option<Params>)
        requires
            self@.is_valid(),
        ensures
            match params {
                Some(params) => pass_params(self@) == Some(crate::request::param_views(params@)),
                None => pass_params(self@) is None,
            },
    {
        match self {
            Pass::Polling { since } => Some(recent_changes_request(*since)),
            Pass::Users { users, at, .. } => {
                let part = batch(users.as_slice(), *at, BATCH_SIZE);
                assert(crate::text::texts(part@) =~= crate::batch::batch_of(
                    crate::text::texts(users@),
                    *at as int,
                    BATCH_SIZE as int,
                ));
                Some(edit_counts_request(part))
            },
            Pass::Checking { suspects, at, .. } => match check_for(&suspects[*at]) {
                Check::Revision(revid) => Some(initial_revision_request(revid)),
                Check::Diff(old_revid, revid) => Some(diff_request(old_revid, revid)),
                Check::Nothing => None,
            },
            Pass::Ended { .. } => None,
        }
    }

    /// Go on with the reply to the request. The next pass starts at the newest
    /// edit that the poll gave.
    pub fn answer(self, monitor: &mut Monitor, reply: Result<Json, Failure>, now: Moment) -> (next:
        Pass)
        requires
            self@.is_valid(),
            old(monitor).is_valid(),
            now.is_valid(),
        ensures
            next@ == pass_after(self@, reply, now),
            next@.is_valid(),
            final(monitor).is_valid(),
            final(monitor).since == since_after(self@, reply, now, old(monitor).since),
            final(monitor).matching == old(monitor).matching,
            final(monitor).last_save == old(monitor).last_save,
    {
        let ghost nothing: Seq<Edit> = seq![];
        assert(super::edit_views(nothing) =~= seq![]);
        match (self, reply) {
            (Pass::Polling { .. }, Ok(resp)) => {
                let edits = recent_changes(&resp, now);
                monitor.polled(edits.as_slice());
                let users = users_to_look_up(edits.as_slice());
                proof {
                    lemma_dated(edits@);
                    assert(super::edit_views(edits@).len() == edits@.len());
                    if edits@.len() > 0 {
                        assert(super::edit_views(edits@)[0] == edits@[0]@);
                    }
                }
                ask_on(edits, users, 0, TitleSet::new())
            },
            (Pass::Polling { .. }, Err(_)) => Pass::Ended { matching: Vec::new() },
            (Pass::Users { edits, users, at, newcomers }, Ok(resp)) => {
                let mut newcomers = newcomers;
                add_newcomers(&mut newcomers, &resp);
                assert(crate::text::texts(users@).len() == users@.len());
                let end: usize = end_of_batch(at, BATCH_SIZE, users.len());
                ask_on(edits, users, end, newcomers)
            },
            (Pass::Users { .. }, Err(_)) => Pass::Ended { matching: Vec::new() },
            (Pass::Checking { suspects, at, matching }, Ok(resp)) => {
                let mut matching = matching;
                let ghost before = matching@;
                assert(suspects.len() == suspects@.len());
                assert(super::edit_views(suspects@)[at as int] == suspects@[at as int]@);
                if response_shows_utm(&suspects[at], &resp) {
                    let edit = suspects[at].clone();
                    matching.push(edit);
                    assert(super::edit_views(matching@) =~= super::edit_views(before).push(edit@));
                }
                check_on(suspects, at + 1, matching)
            },
            (Pass::Checking { suspects, at, matching }, Err(_)) => {
                assert(suspects.len() == suspects@.len());
                check_on(suspects, at + 1, matching)
            },
            (Pass::Ended { matching }, _) => Pass::Ended { matching },
        }
    }
}

} // verus!
