//! Page-state lookups on the Japanese Wikipedia.

use vstd::hash_map::StringHashMap;
use vstd::prelude::*;

use crate::json::Json;
use crate::request::{build_params, Params};
use crate::text::joined;
use crate::titles::{TitleSet, TitleTable};

verus! {

/// Redirect hops followed before giving up, which bounds the work done on a
/// redirect loop the API did not resolve.
pub const MAX_HOPS: usize = 4;

/// State of a Japanese article title referenced by an interlanguage link.
#[derive(Debug, PartialEq, Eq)]
pub enum PageState {
    /// A regular article exists under that title.
    Exists,
    /// No page exists under that title.
    Missing,
    /// The title is a redirect, resolving to the given target. The target may
    /// itself be missing, i.e. a broken redirect.
    Redirect(String),
}

/// The contents of a [`PageState`].
pub enum StateView {
    Exists,
    Missing,
    Redirect(Seq<char>),
}

impl View for PageState {
    type V = StateView;

    open spec fn view(&self) -> StateView {
        match self {
            PageState::Exists => StateView::Exists,
            PageState::Missing => StateView::Missing,
            PageState::Redirect(target) => StateView::Redirect(target@),
        }
    }
}

impl Clone for PageState {
    fn clone(&self) -> (copy: Self)
        ensures
            copy@ == self@,
    {
        match self {
            PageState::Exists => PageState::Exists,
            PageState::Missing => PageState::Missing,
            PageState::Redirect(target) => PageState::Redirect(target.clone()),
        }
    }
}

/// The states of titles.
pub struct StateTable {
    states: StringHashMap<PageState>,
}

impl View for StateTable {
    type V = Map<Seq<char>, StateView>;

    closed spec fn view(&self) -> Map<Seq<char>, StateView> {
        self.states@.map_values(|state: PageState| state@)
    }
}

impl StateTable {
    /// The empty table.
    pub fn new() -> (table: Self)
        ensures
            table@ == Map::<Seq<char>, StateView>::empty(),
    {
        let table = StateTable { states: StringHashMap::new() };
        assert(table@ =~= Map::<Seq<char>, StateView>::empty());
        table
    }

    /// Enter the state of a title, in place of any earlier entry for it.
    pub fn insert(&mut self, title: String, state: PageState)
        ensures
            final(self)@ == old(self)@.insert(title@, state@),
    {
        self.states.insert(title, state);
        assert(self@ =~= old(self)@.insert(title@, state@));
    }

    /// Enter all states of another table, in place of earlier entries.
    pub fn extend(&mut self, other: StateTable)
        ensures
            final(self)@ == old(self)@.union_prefer_right(other@),
    {
        self.states.union_prefer_right(other.states);
        assert(self@ =~= old(self)@.union_prefer_right(other@));
    }

    /// The state of a title.
    pub fn get(&self, title: &str) -> (state: Option<&PageState>)
        ensures
            match state {
                Some(state) => self@.contains_key(title@) && self@[title@] == state@,
                None => !self@.contains_key(title@),
            },
    {
        self.states.get(title)
    }

    /// Whether the state of a title is known.
    pub fn contains_key(&self, title: &str) -> (yes: bool)
        ensures
            yes == self@.contains_key(title@),
    {
        self.states.contains_key(title)
    }
}

/// The parameters of a question for the states of titles.
pub open spec fn page_states_params(titles: Seq<Seq<char>>) -> Seq<(Seq<char>, Seq<char>)> {
    seq![
        ("action"@, "query"@),
        ("prop"@, "info"@),
        ("titles"@, crate::text::join(titles, "|"@)),
        ("redirects"@, "1"@),
        ("formatversion"@, "2"@),
    ]
}

/// Request the state of each title. Sent as a POST, since a batch of
/// percent-encoded titles can exceed the server's URI length limit.
pub fn page_states_request(titles: &[String]) -> (params: Params)
    ensures
        crate::request::param_views(params@) == page_states_params(crate::text::texts(titles@)),
{
    let list = joined(titles, "|");
    let params = build_params(
        &[
            ("action", "query"),
            ("prop", "info"),
            ("titles", list.as_str()),
            ("redirects", "1"),
            ("formatversion", "2"),
        ],
    );
    params
}

/// The table written as a list of `{from, to}` objects. Items without both
/// names are skipped, and the last item for a name counts.
pub open spec fn table_of(items: Seq<Json>) -> Map<Seq<char>, Seq<char>>
    decreases items.len(),
{
    if items.len() == 0 {
        Map::empty()
    } else {
        let before = table_of(items.drop_last());
        match (items.last().member("from"@).text(), items.last().member("to"@).text()) {
            (Some(from), Some(to)) => before.insert(from, to),
            _ => before,
        }
    }
}

/// Read a list of `{from, to}` objects into a lookup table.
pub fn pairs(value: &Json) -> (table: TitleTable)
    ensures
        table@ == table_of(value.elements()),
{
    let items = value.items();
    let mut table = TitleTable::new();
    let mut i: usize = 0;
    while i < items.len()
        invariant
            i <= items@.len(),
            table@ == table_of(items@.take(i as int)),
        decreases items@.len() - i,
    {
        assert(items@.take(i + 1).drop_last() =~= items@.take(i as int));
        if let (Some(from), Some(to)) = (items[i].get("from").as_str(), items[i].get("to").as_str()) {
            table.insert(from.to_owned(), to.to_owned());
        }
        i += 1;
    }
    assert(items@.take(i as int) =~= items@);
    table
}

/// Whether the pages of a response name a title as missing.
pub open spec fn is_named_missing(pages: Seq<Json>, title: Seq<char>) -> bool {
    exists|i: int|
        0 <= i < pages.len() && (#[trigger] pages[i]).member("missing"@) == Json::Bool(true)
            && pages[i].member("title"@).text() == Some(title)
}

/// Read the titles that the pages of a response name as missing.
pub fn missing_titles(pages: &[Json]) -> (missing: TitleSet)
    ensures
        forall|title: Seq<char>| #[trigger]
            missing@.contains(title) == is_named_missing(pages@, title),
{
    let mut missing = TitleSet::new();
    let mut i: usize = 0;
    while i < pages.len()
        invariant
            i <= pages@.len(),
            forall|title: Seq<char>| #[trigger]
                missing@.contains(title) == is_named_missing(pages@.take(i as int), title),
        decreases pages@.len() - i,
    {
        let ghost before = missing@;
        let ghost seen = pages@.take(i as int);
        let ghost page = pages@[i as int];
        if pages[i].get("missing").is_true() {
            if let Some(title) = pages[i].get("title").as_str() {
                missing.insert(title.to_owned());
            }
        }
        i += 1;
        proof {
            let now = pages@.take(i as int);
            let named = |title: Seq<char>|
                page.member("missing"@) == Json::Bool(true) && page.member("title"@).text() == Some(
                    title,
                );
            assert forall|title: Seq<char>| #[trigger]
                missing@.contains(title) == is_named_missing(now, title) by {
                assert(missing@.contains(title) == (before.contains(title) || named(title)));
                if is_named_missing(now, title) {
                    let k = choose|k: int|
                        0 <= k < now.len() && (#[trigger] now[k]).member("missing"@) == Json::Bool(
                            true,
                        ) && now[k].member("title"@).text() == Some(title);
                    if k < i - 1 {
                        assert(seen[k] == now[k]);
                    } else {
                        assert(now[k] == page);
                    }
                }
                if is_named_missing(seen, title) {
                    let k = choose|k: int|
                        0 <= k < seen.len() && (#[trigger] seen[k]).member("missing"@)
                            == Json::Bool(true) && seen[k].member("title"@).text() == Some(title);
                    assert(seen[k] == now[k]);
                }
                if named(title) {
                    assert(now[i - 1] == page);
                }
            }
        }
    }
    assert(pages@.take(i as int) =~= pages@);
    missing
}

/// The title reached from `title` by following redirects, at most `hops` of
/// them.
pub open spec fn followed(
    redirects: Map<Seq<char>, Seq<char>>,
    title: Seq<char>,
    hops: nat,
) -> Seq<char>
    decreases hops,
{
    if hops > 0 && redirects.contains_key(title) {
        followed(redirects, redirects[title], (hops - 1) as nat)
    } else {
        title
    }
}

/// The state of a normalised title.
pub open spec fn resolved(
    title: Seq<char>,
    redirects: Map<Seq<char>, Seq<char>>,
    missing: Set<Seq<char>>,
) -> StateView {
    if redirects.contains_key(title) {
        StateView::Redirect(followed(redirects, title, MAX_HOPS as nat + 1))
    } else if missing.contains(title) {
        StateView::Missing
    } else {
        StateView::Exists
    }
}

/// Classify a normalised title by following its redirect chain.
pub fn resolve(title: &str, redirects: &TitleTable, missing: &TitleSet) -> (state: PageState)
    ensures
        state@ == resolved(title@, redirects@, missing@),
{
    let first = match redirects.get(title) {
        Some(first) => first,
        None => {
            return if missing.contains(title) {
                PageState::Missing
            } else {
                PageState::Exists
            };
        },
    };
    let mut target: &String = first;
    let mut hops: usize = MAX_HOPS;
    assert(followed(redirects@, title@, MAX_HOPS as nat + 1) == followed(
        redirects@,
        target@,
        hops as nat,
    ));
    while hops > 0
        invariant
            followed(redirects@, title@, MAX_HOPS as nat + 1) == followed(
                redirects@,
                target@,
                hops as nat,
            ),
        decreases hops,
    {
        match redirects.get(target.as_str()) {
            Some(next) => {
                target = next;
                hops -= 1;
            },
            None => {
                hops = 0;
            },
        }
    }
    PageState::Redirect(target.clone())
}

/// The state that a response gives a title as it was asked for.
pub open spec fn state_in(resp: Json, title: Seq<char>) -> StateView {
    let query = resp.member("query"@);
    let normalized = table_of(query.member("normalized"@).elements());
    let start = if normalized.contains_key(title) {
        normalized[title]
    } else {
        title
    };
    resolved(
        start,
        table_of(query.member("redirects"@).elements()),
        Set::new(|t: Seq<char>| is_named_missing(query.member("pages"@).elements(), t)),
    )
}

/// The states that a response gives titles as they were asked for.
pub open spec fn states_in(resp: Json, titles: Seq<Seq<char>>) -> Map<Seq<char>, StateView> {
    Map::new(
        |title: Seq<char>| titles.contains(title),
        |title: Seq<char>| state_in(resp, title),
    )
}

/// Read the state of each title, keyed by the title as passed in.
pub fn page_states(resp: &Json, titles: &[String]) -> (states: StateTable)
    ensures
        states@ == states_in(*resp, crate::text::texts(titles@)),
{
    let query = resp.get("query");
    let normalized = pairs(query.get("normalized"));
    let redirects = pairs(query.get("redirects"));
    let missing = missing_titles(query.get("pages").items());
    let ghost names = crate::text::texts(titles@);
    assert(missing@ =~= Set::new(
        |t: Seq<char>| is_named_missing(query.member("pages"@).elements(), t),
    ));
    let mut states = StateTable::new();
    let mut i: usize = 0;
    assert(names.take(0) =~= seq![]);
    while i < titles.len()
        invariant
            i <= titles@.len(),
            names == crate::text::texts(titles@),
            *query == resp.member("query"@),
            normalized@ == table_of(query.member("normalized"@).elements()),
            redirects@ == table_of(query.member("redirects"@).elements()),
            missing@ == Set::new(
                |t: Seq<char>| is_named_missing(query.member("pages"@).elements(), t),
            ),
            forall|title: Seq<char>| #[trigger]
                states@.contains_key(title) == names.take(i as int).contains(title),
            forall|title: Seq<char>|
                states@.contains_key(title) ==> #[trigger] states@[title] == state_in(*resp, title),
        decreases titles@.len() - i,
    {
        let title: &String = &titles[i];
        let start: &str = match normalized.get(title.as_str()) {
            Some(to) => to.as_str(),
            None => title.as_str(),
        };
        let state = resolve(start, &redirects, &missing);
        let ghost before = states@;
        assert(state@ == state_in(*resp, title@));
        states.insert(title.clone(), state);
        i += 1;
        proof {
            let seen = names.take(i - 1);
            let now = names.take(i as int);
            assert(now =~= seen.push(title@));
            assert forall|t: Seq<char>| #[trigger]
                states@.contains_key(t) == now.contains(t) by {
                assert(states@.contains_key(t) == (t == title@ || before.contains_key(t)));
                if seen.contains(t) {
                    let k = seen.index_of(t);
                    assert(now[k] == t);
                }
                if now.contains(t) && t != title@ {
                    let k = now.index_of(t);
                    assert(seen[k] == t);
                }
                if t == title@ {
                    assert(now[i - 1] == t);
                }
            }
        }
    }
    assert(names.take(i as int) =~= names);
    assert(states@ =~= states_in(*resp, names));
    states
}

/// A redirect chain of at most one hop more than [`MAX_HOPS`] is followed to
/// its end, whether or not the page at its end exists.
pub proof fn short_chains_are_followed_to_their_end(
    chain: Seq<Seq<char>>,
    redirects: Map<Seq<char>, Seq<char>>,
    missing: Set<Seq<char>>,
)
    requires
        2 <= chain.len() <= MAX_HOPS + 2,
        forall|i: int|
            0 <= i < chain.len() - 1 ==> redirects.contains_key(#[trigger] chain[i])
                && redirects[chain[i]] == chain[i + 1],
        !redirects.contains_key(chain.last()),
    ensures
        resolved(chain[0], redirects, missing) == StateView::Redirect(chain.last()),
{
    assert(redirects.contains_key(chain[0]));
    lemma_followed_along(chain, redirects, 0, MAX_HOPS as nat + 1);
}

proof fn lemma_followed_along(
    chain: Seq<Seq<char>>,
    redirects: Map<Seq<char>, Seq<char>>,
    from: int,
    hops: nat,
)
    requires
        0 <= from < chain.len() <= from + hops + 1,
        forall|i: int|
            0 <= i < chain.len() - 1 ==> redirects.contains_key(#[trigger] chain[i])
                && redirects[chain[i]] == chain[i + 1],
        !redirects.contains_key(chain.last()),
    ensures
        followed(redirects, chain[from], hops) == chain.last(),
    decreases hops,
{
    if from < chain.len() - 1 {
        assert(redirects.contains_key(chain[from]));
        lemma_followed_along(chain, redirects, from + 1, (hops - 1) as nat);
    }
}

/// Whether a redirect's target exists plays no part: a broken redirect is a
/// redirect like any other.
pub proof fn broken_redirects_are_redirects(
    title: Seq<char>,
    redirects: Map<Seq<char>, Seq<char>>,
    missing: Set<Seq<char>>,
    other: Set<Seq<char>>,
)
    requires
        redirects.contains_key(title),
    ensures
        resolved(title, redirects, missing) is Redirect,
        resolved(title, redirects, missing) == resolved(title, redirects, other),
{
}

} // verus!
