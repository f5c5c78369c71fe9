//! Lookup results kept for a whole scan, since the same titles recur across
//! articles.

use vstd::hash_map::StringHashMap;
use vstd::prelude::*;

use super::jawiki::StateTable;
use crate::number::decimal_text;
use crate::text::to_chars;
use crate::titles::{TitleSet, TitleTable};

verus! {

/// One text for a site and a title: the length of the site's name, then both.
pub open spec fn link_key(site: Seq<char>, title: Seq<char>) -> Seq<char> {
    crate::number::decimal(site.len()).push(':') + site + title
}

proof fn lemma_link_key_is_injective(
    site: Seq<char>,
    title: Seq<char>,
    other_site: Seq<char>,
    other_title: Seq<char>,
)
    requires
        link_key(site, title) == link_key(other_site, other_title),
    ensures
        site == other_site,
        title == other_title,
{
    let key = link_key(site, title);
    let a = crate::number::decimal(site.len());
    let b = crate::number::decimal(other_site.len());
    crate::number::decimal_holds_digits_only(site.len());
    crate::number::decimal_holds_digits_only(other_site.len());
    assert(key[a.len() as int] == ':' && key[b.len() as int] == ':');
    if a.len() < b.len() {
        assert(key[a.len() as int] == b[a.len() as int]);
    }
    if b.len() < a.len() {
        assert(key[b.len() as int] == a[b.len() as int]);
    }
    assert(a =~= key.take(a.len() as int));
    assert(b =~= key.take(b.len() as int));
    crate::number::decimal_is_injective(site.len(), other_site.len());
    let n = a.len() + 1;
    assert(site =~= key.subrange(n as int, (n + site.len()) as int));
    assert(other_site =~= key.subrange(n as int, (n + site.len()) as int));
    assert(title =~= key.skip((n + site.len()) as int));
    assert(other_title =~= key.skip((n + site.len()) as int));
}

fn make_key(site: &str, title: &str) -> (key: String)
    ensures
        key@ == link_key(site@, title@),
{
    let n: usize = to_chars(site).len();
    let mut key = decimal_text(n as u64);
    key.push(':');
    key.append(site);
    key.append(title);
    key
}

/// Japanese counterpart of each pair of a site and a normalised title, or
/// `None` when the pair has no Japanese article.
pub struct LinkTable {
    links: StringHashMap<Option<String>>,
}

impl View for LinkTable {
    type V = Map<(Seq<char>, Seq<char>), Option<Seq<char>>>;

    closed spec fn view(&self) -> Map<(Seq<char>, Seq<char>), Option<Seq<char>>> {
        Map::new(
            |pair: (Seq<char>, Seq<char>)| self.links@.contains_key(link_key(pair.0, pair.1)),
            |pair: (Seq<char>, Seq<char>)|
                crate::text::optional_text(self.links@[link_key(pair.0, pair.1)]),
        )
    }
}

impl LinkTable {
    /// The empty table.
    pub fn new() -> (table: Self)
        ensures
            table@ == Map::<(Seq<char>, Seq<char>), Option<Seq<char>>>::empty(),
    {
        let table = LinkTable { links: StringHashMap::new() };
        assert(table@ =~= Map::<(Seq<char>, Seq<char>), Option<Seq<char>>>::empty());
        table
    }

    /// Enter the counterpart of a pair, in place of any earlier entry for it.
    pub fn insert(&mut self, site: &str, title: &str, linked: Option<String>)
        ensures
            final(self)@ == old(self)@.insert(
                (site@, title@),
                crate::text::optional_text(linked),
            ),
    {
        self.links.insert(make_key(site, title), linked);
        proof {
            let wanted = old(self)@.insert((site@, title@), crate::text::optional_text(linked));
            assert forall|pair: (Seq<char>, Seq<char>)|
                link_key(pair.0, pair.1) == link_key(site@, title@) implies pair == (
                site@,
                title@,
            ) by {
                lemma_link_key_is_injective(pair.0, pair.1, site@, title@);
            }
            assert forall|pair: (Seq<char>, Seq<char>)|
                #![trigger self@.contains_key(pair)]
                self@.contains_key(pair) == wanted.contains_key(pair) && (self@.contains_key(pair)
                    ==> self@[pair] == wanted[pair]) by {
                if link_key(pair.0, pair.1) == link_key(site@, title@) {
                    assert(pair == (site@, title@));
                }
            }
            assert(self@ =~= wanted);
        }
    }

    /// The entry for a pair.
    pub fn get(&self, site: &str, title: &str) -> (linked: Option<&Option<String>>)
        ensures
            match linked {
                Some(linked) => self@.contains_key((site@, title@)) && self@[(site@, title@)]
                    == crate::text::optional_text(*linked),
                None => !self@.contains_key((site@, title@)),
            },
    {
        self.links.get(make_key(site, title).as_str())
    }

    /// Whether there is an entry for a pair.
    pub fn contains_key(&self, site: &str, title: &str) -> (yes: bool)
        ensures
            yes == self@.contains_key((site@, title@)),
    {
        self.links.contains_key(make_key(site, title).as_str())
    }
}

/// Lookup results kept for the whole scan.
pub struct Caches {
    /// State of each Japanese article name seen so far.
    pub ja: StateTable,
    /// Language codes Wikidata does not know, already warned about.
    pub unknown_langs: TitleSet,
    /// Japanese counterparts found so far.
    pub sitelinks: LinkTable,
}

/// The contents of [`Caches`].
#[verifier::ext_equal]
pub struct CachesView {
    pub ja: Map<Seq<char>, super::jawiki::StateView>,
    pub unknown: Set<Seq<char>>,
    pub links: Map<(Seq<char>, Seq<char>), Option<Seq<char>>>,
}

impl View for Caches {
    type V = CachesView;

    open spec fn view(&self) -> CachesView {
        CachesView {
            ja: self.ja@,
            unknown: self.unknown_langs@,
            links: self.sitelinks@,
        }
    }
}

/// The links after the answer to a lookup is entered: each title that was asked
/// for with its counterpart, if it has one.
pub open spec fn with_answer(
    links: Map<(Seq<char>, Seq<char>), Option<Seq<char>>>,
    site: Seq<char>,
    titles: Seq<Seq<char>>,
    found: Map<Seq<char>, Seq<char>>,
) -> Map<(Seq<char>, Seq<char>), Option<Seq<char>>>
    decreases titles.len(),
{
    if titles.len() == 0 {
        links
    } else {
        let title = titles.last();
        with_answer(links, site, titles.drop_last(), found).insert(
            (site, title),
            if found.contains_key(title) {
                Some(found[title])
            } else {
                None
            },
        )
    }
}

impl Caches {
    /// Nothing looked up yet.
    pub fn new() -> (caches: Self)
        ensures
            caches.ja@ == Map::<Seq<char>, super::jawiki::StateView>::empty(),
            caches.unknown_langs@ == Set::<Seq<char>>::empty(),
            caches.sitelinks@ == Map::<(Seq<char>, Seq<char>), Option<Seq<char>>>::empty(),
    {
        Caches {
            ja: StateTable::new(),
            unknown_langs: TitleSet::new(),
            sitelinks: LinkTable::new(),
        }
    }

    /// Enter the states of Japanese article names.
    pub fn record_states(&mut self, states: StateTable)
        ensures
            final(self).ja@ == old(self).ja@.union_prefer_right(states@),
            final(self).unknown_langs@ == old(self).unknown_langs@,
            final(self).sitelinks@ == old(self).sitelinks@,
    {
        self.ja.extend(states);
    }

    /// Enter the counterparts of the titles that were looked up on `site`. A
    /// title without one is entered as such, so that it is not looked up again.
    pub fn record_links(&mut self, site: &str, titles: &[String], found: &TitleTable)
        ensures
            final(self).ja@ == old(self).ja@,
            final(self).unknown_langs@ == old(self).unknown_langs@,
            final(self).sitelinks@ == with_answer(
                old(self).sitelinks@,
                site@,
                crate::text::texts(titles@),
                found@,
            ),
    {
        let ghost names = crate::text::texts(titles@);
        let mut i: usize = 0;
        assert(names.take(0) =~= seq![]);
        while i < titles.len()
            invariant
                i <= titles@.len(),
                names == crate::text::texts(titles@),
                self.ja@ == old(self).ja@,
                self.unknown_langs@ == old(self).unknown_langs@,
                self.sitelinks@ == with_answer(
                    old(self).sitelinks@,
                    site@,
                    names.take(i as int),
                    found@,
                ),
            decreases titles@.len() - i,
        {
            assert(names.take(i + 1).drop_last() =~= names.take(i as int));
            let linked: Option<String> = match found.get(titles[i].as_str()) {
                Some(linked) => Some(linked.clone()),
                None => None,
            };
            self.sitelinks.insert(site, titles[i].as_str(), linked);
            i += 1;
        }
        assert(names.take(i as int) =~= names);
    }
}

/// After an answer is entered, every title that was asked for has an entry, and
/// it is the counterpart that was found. Entries for other pairs stay.
pub proof fn answers_are_remembered(
    links: Map<(Seq<char>, Seq<char>), Option<Seq<char>>>,
    site: Seq<char>,
    titles: Seq<Seq<char>>,
    found: Map<Seq<char>, Seq<char>>,
    pair: (Seq<char>, Seq<char>),
)
    ensures
        ({
            let now = with_answer(links, site, titles, found);
            if pair.0 == site && titles.contains(pair.1) {
                now.contains_key(pair) && now[pair] == (if found.contains_key(pair.1) {
                    Some(found[pair.1])
                } else {
                    None
                })
            } else {
                now.contains_key(pair) == links.contains_key(pair) && (links.contains_key(pair)
                    ==> now[pair] == links[pair])
            }
        }),
    decreases titles.len(),
{
    if titles.len() > 0 {
        answers_are_remembered(links, site, titles.drop_last(), found, pair);
        assert(titles =~= titles.drop_last().push(titles.last()));
        crate::titles::lemma_push_contains(titles.drop_last(), titles.last(), pair.1);
    }
}

} // verus!
