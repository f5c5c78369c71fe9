//! Sets and tables of page titles.

use vstd::hash_map::StringHashMap;
use vstd::hash_set::StringHashSet;
use vstd::prelude::*;

verus! {

/// A set of titles.
pub struct TitleSet {
    titles: StringHashSet,
}

impl View for TitleSet {
    type V = Set<Seq<char>>;

    closed spec fn view(&self) -> Set<Seq<char>> {
        self.titles@
    }
}

impl TitleSet {
    /// The empty set.
    pub fn new() -> (set: Self)
        ensures
            set@ == Set::<Seq<char>>::empty(),
    {
        TitleSet { titles: StringHashSet::new() }
    }

    /// Add a title, saying whether it is new.
    pub fn insert(&mut self, title: String) -> (new: bool)
        ensures
            final(self)@ == old(self)@.insert(title@),
            new == !old(self)@.contains(title@),
    {
        self.titles.insert(title)
    }

    /// Whether the set holds a title.
    pub fn contains(&self, title: &str) -> (yes: bool)
        ensures
            yes == self@.contains(title@),
    {
        self.titles.contains(title)
    }
}

/// A table from titles to titles.
pub struct TitleTable {
    titles: StringHashMap<String>,
}

impl View for TitleTable {
    type V = Map<Seq<char>, Seq<char>>;

    closed spec fn view(&self) -> Map<Seq<char>, Seq<char>> {
        self.titles@.map_values(|to: String| to@)
    }
}

impl TitleTable {
    /// The empty table.
    pub fn new() -> (table: Self)
        ensures
            table@ == Map::<Seq<char>, Seq<char>>::empty(),
    {
        let table = TitleTable { titles: StringHashMap::new() };
        assert(table@ =~= Map::<Seq<char>, Seq<char>>::empty());
        table
    }

    /// Enter a title, in place of any earlier entry for it.
    pub fn insert(&mut self, from: String, to: String)
        ensures
            final(self)@ == old(self)@.insert(from@, to@),
    {
        self.titles.insert(from, to);
        assert(self@ =~= old(self)@.insert(from@, to@));
    }

    /// The entry for a title.
    pub fn get(&self, from: &str) -> (to: Option<&String>)
        ensures
            match to {
                Some(to) => self@.contains_key(from@) && self@[from@] == to@,
                None => !self@.contains_key(from@),
            },
    {
        self.titles.get(from)
    }

    /// The number of entries.
    pub fn len(&self) -> (n: usize)
        ensures
            n == self@.dom().len(),
    {
        let n: usize = self.titles.len();
        assert(self@.dom() =~= self.titles@.dom());
        n
    }
}

/// The values without repetitions, in the order of their first appearance.
pub open spec fn unique_of(values: Seq<Seq<char>>) -> Seq<Seq<char>>
    decreases values.len(),
{
    if values.len() == 0 {
        seq![]
    } else {
        let before = unique_of(values.drop_last());
        if values.drop_last().contains(values.last()) {
            before
        } else {
            before.push(values.last())
        }
    }
}

/// Collect values into a vector without duplicates, preserving first-seen
/// order.
pub fn unique(values: &[String]) -> (out: Vec<String>)
    ensures
        crate::text::texts(out@) == unique_of(crate::text::texts(values@)),
{
    let ghost all = crate::text::texts(values@);
    let mut seen = TitleSet::new();
    let mut out: Vec<String> = Vec::new();
    let mut i: usize = 0;
    assert(crate::text::texts(out@) =~= unique_of(all.take(0)));
    while i < values.len()
        invariant
            i <= values@.len(),
            all == crate::text::texts(values@),
            crate::text::texts(out@) == unique_of(all.take(i as int)),
            forall|v: Seq<char>| #[trigger] seen@.contains(v) == all.take(i as int).contains(v),
        decreases values@.len() - i,
    {
        let value: &String = &values[i];
        let ghost before = out@;
        if seen.insert(value.clone()) {
            let copy = value.clone();
            out.push(copy);
            assert(crate::text::texts(out@) =~= crate::text::texts(before).push(copy@));
        }
        i += 1;
        proof {
            let now = all.take(i as int);
            assert(now.drop_last() =~= all.take(i - 1));
            assert(now =~= all.take(i - 1).push(value@));
            assert forall|v: Seq<char>| #[trigger] seen@.contains(v) == now.contains(v) by {
                lemma_push_contains(all.take(i - 1), value@, v);
            }
        }
    }
    assert(all.take(i as int) =~= all);
    out
}

/// What a sequence holds after another element is added.
pub proof fn lemma_push_contains<T>(s: Seq<T>, x: T, v: T)
    ensures
        s.push(x).contains(v) == (s.contains(v) || v == x),
{
    if s.contains(v) {
        let k = s.index_of(v);
        assert(s.push(x)[k] == v);
    }
    if s.push(x).contains(v) && v != x {
        let k = s.push(x).index_of(v);
        assert(s[k] == v);
    }
    if v == x {
        assert(s.push(x)[s.len() as int] == v);
    }
}

/// No value is lost and none is made up.
pub proof fn unique_keeps_every_value(values: Seq<Seq<char>>, v: Seq<char>)
    ensures
        unique_of(values).contains(v) == values.contains(v),
    decreases values.len(),
{
    if values.len() > 0 {
        unique_keeps_every_value(values.drop_last(), v);
        assert(values =~= values.drop_last().push(values.last()));
        lemma_push_contains(values.drop_last(), values.last(), v);
        lemma_push_contains(unique_of(values.drop_last()), values.last(), v);
    }
}

/// No value comes twice.
pub proof fn unique_has_no_duplicates(values: Seq<Seq<char>>)
    ensures
        unique_of(values).no_duplicates(),
    decreases values.len(),
{
    if values.len() > 0 {
        unique_has_no_duplicates(values.drop_last());
        let before = unique_of(values.drop_last());
        if !values.drop_last().contains(values.last()) {
            unique_keeps_every_value(values.drop_last(), values.last());
            let now = unique_of(values);
            assert forall|i: int, j: int|
                0 <= i < now.len() && 0 <= j < now.len() && i != j implies now[i] != now[j] by {
                if i < before.len() {
                    assert(before.contains(now[i]));
                }
                if j < before.len() {
                    assert(before.contains(now[j]));
                }
            }
        }
    }
}

/// Of two values, the one that appears first comes first.
pub proof fn unique_keeps_the_order_of_first_appearance(values: Seq<Seq<char>>, i: int, j: int)
    requires
        0 <= i < j < unique_of(values).len(),
    ensures
        exists|k: int|
            0 <= k < values.len() && #[trigger] values[k] == unique_of(values)[i] && !values.take(
                k + 1,
            ).contains(unique_of(values)[j]),
    decreases values.len(),
{
    let prior = values.drop_last();
    let before = unique_of(prior);
    let now = unique_of(values);
    if j < before.len() {
        unique_keeps_the_order_of_first_appearance(prior, i, j);
        let k = choose|k: int|
            0 <= k < prior.len() && #[trigger] prior[k] == before[i] && !prior.take(
                k + 1,
            ).contains(before[j]);
        assert(values.take(k + 1) =~= prior.take(k + 1));
        assert(values[k] == now[i]);
    } else {
        assert(now[j] == values.last() && !prior.contains(values.last()));
        assert(before.contains(now[i]));
        unique_keeps_every_value(prior, now[i]);
        let k = prior.index_of(now[i]);
        assert(values[k] == now[i]);
        if values.take(k + 1).contains(values.last()) {
            let m = values.take(k + 1).index_of(values.last());
            assert(prior[m] == values.last());
        }
    }
}

/// Values that are all different stay as they are.
pub proof fn unique_values_stay(values: Seq<Seq<char>>)
    requires
        values.no_duplicates(),
    ensures
        unique_of(values) == values,
    decreases values.len(),
{
    if values.len() > 0 {
        unique_values_stay(values.drop_last());
        if values.drop_last().contains(values.last()) {
            let k = values.drop_last().index_of(values.last());
            assert(values[k] == values[values.len() - 1]);
        }
        assert(unique_of(values) =~= values);
    }
}

/// Removing repetitions twice is removing them once.
pub proof fn unique_twice(values: Seq<Seq<char>>)
    ensures
        unique_of(unique_of(values)) == unique_of(values),
{
    unique_has_no_duplicates(values);
    unique_values_stay(unique_of(values));
}

} // verus!
