//! Wikidata lookups that map a foreign article to its Japanese counterpart.
//!
//! Titles are resolved with `wbgetentities`, which is asked for both the
//! source site and `jawiki` so that each returned item can be matched back to
//! the title it was requested for. Sitelinks point at real articles, so a
//! foreign title that is itself a redirect resolves to no item and is skipped.

use vstd::prelude::*;

use crate::api::Failure;
use crate::json::Json;
use crate::letters::raise;
use crate::request::{build_params, Params};
use crate::text::{
    equal, joined, lowered, squeeze, to_chars, to_text, trim, uppered, with_char_replaced,
};
use crate::titles::{TitleSet, TitleTable};

verus! {

/// How many titles or ids to request per call. The bot holds no `apihighlimits`
/// right on Wikidata even when authenticated, so the lower limit applies.
pub const BATCH: usize = 50;

/// Site identifier of the Japanese Wikipedia.
pub const JA_SITE: &'static str = "jawiki";

/// Pseudo language code naming a Wikidata item directly instead of an article.
pub const WIKIDATA_LANG: &'static str = "wikidata";

/// The Wikipedia database name of a language code for which it does not follow
/// the usual "replace hyphens with underscores and append `wiki`" rule.
pub open spec fn site_exception(code: Seq<char>) -> Option<Seq<char>> {
    if code == "be-tarask"@ {
        Some("be_x_oldwiki"@)
    } else if code == "gsw"@ {
        Some("alswiki"@)
    } else if code == "lzh"@ {
        Some("zh_classicalwiki"@)
    } else if code == "nan"@ {
        Some("zh_min_nanwiki"@)
    } else if code == "nb"@ {
        Some("nowiki"@)
    } else if code == "rup"@ {
        Some("roa_rupwiki"@)
    } else if code == "sgs"@ {
        Some("bat_smgwiki"@)
    } else if code == "vro"@ {
        Some("fiu_vrowiki"@)
    } else if code == "yue"@ {
        Some("zh_yuewiki"@)
    } else {
        None
    }
}

fn exceptional_site(code: &[char]) -> (site: Option<&'static str>)
    ensures
        match site {
            Some(site) => site_exception(code@) == Some(site@),
            None => site_exception(code@) is None,
        },
{
    if equal(code, to_chars("be-tarask").as_slice()) {
        Some("be_x_oldwiki")
    } else if equal(code, to_chars("gsw").as_slice()) {
        Some("alswiki")
    } else if equal(code, to_chars("lzh").as_slice()) {
        Some("zh_classicalwiki")
    } else if equal(code, to_chars("nan").as_slice()) {
        Some("zh_min_nanwiki")
    } else if equal(code, to_chars("nb").as_slice()) {
        Some("nowiki")
    } else if equal(code, to_chars("rup").as_slice()) {
        Some("roa_rupwiki")
    } else if equal(code, to_chars("sgs").as_slice()) {
        Some("bat_smgwiki")
    } else if equal(code, to_chars("vro").as_slice()) {
        Some("fiu_vrowiki")
    } else if equal(code, to_chars("yue").as_slice()) {
        Some("zh_yuewiki")
    } else {
        None
    }
}

/// The database name of the Wikipedia for a language code.
pub open spec fn site_of(lang: Seq<char>) -> Seq<char> {
    let code = crate::text::lower(crate::text::trimmed(lang));
    match site_exception(code) {
        Some(site) => site,
        None => crate::text::replace_char(code, '-', '_') + "wiki"@,
    }
}

/// Database name of the Wikipedia for a language code.
///
/// The result is not guaranteed to exist; [`Wikidata::site_for`] checks it
/// against the site list reported by the API.
pub fn site_name(lang: &str) -> (site: String)
    ensures
        site@ == site_of(lang@),
{
    let chars = to_chars(lang);
    let code = lowered(trim(chars.as_slice()));
    match exceptional_site(code.as_slice()) {
        Some(site) => site.to_owned(),
        None => {
            let mut site = to_text(with_char_replaced(code.as_slice(), '-', '_').as_slice());
            site.append("wiki");
            site
        },
    }
}

/// A title as `MediaWiki` writes it: with one space for each run of white space
/// and underscores, none at the ends, and with an upper-case first letter.
pub open spec fn normalized(title: Seq<char>) -> Seq<char> {
    crate::letters::raised(crate::text::squeezed(title))
}

/// Normalise a page title the way `MediaWiki` does, so that a title written in
/// an article matches the one Wikidata reports.
#[must_use]
pub fn normalize_title(title: &str) -> (out: String)
    ensures
        out@ == normalized(title@),
{
    let chars = to_chars(title);
    to_text(raise(squeeze(chars.as_slice()).as_slice()).as_slice())
}

/// Normalising a normalised title changes nothing.
pub proof fn normalizing_twice(title: Seq<char>)
    ensures
        normalized(normalized(title)) == normalized(title),
{
    let inner = crate::text::squeezed(title);
    let once = normalized(title);
    crate::text::squeezing_separates_words(title);
    if inner.len() > 0 {
        crate::letters::raising_keeps_letters(inner[0]);
    }
    assert forall|i: int| 0 <= i < once.len() && crate::text::is_gap(#[trigger] once[i]) implies once[i]
        == ' ' && (i + 1 < once.len() ==> !crate::text::is_gap(once[i + 1])) by {
        assert(crate::text::is_gap(inner[i]));
    }
    crate::text::nothing_to_squeeze(once);
    assert(crate::letters::raised(once) =~= once);
}

/// A title with underscores for its spaces is the same title.
pub proof fn underscores_are_spaces(title: Seq<char>)
    ensures
        normalized(crate::text::replace_char(title, ' ', '_')) == normalized(title),
{
    crate::text::gaps_are_alike(crate::text::replace_char(title, ' ', '_'), title);
}

/// What is known of Wikidata: the site identifiers `wbgetentities` accepts, so
/// that an unknown language code is skipped instead of failing a whole batch.
pub struct Wikidata {
    pub sites: TitleSet,
}

/// How Wikidata is accessed.
#[derive(Debug, Clone, Copy, PartialEq, Eq, Structural)]
pub enum Access {
    /// With the bot's own credentials.
    Bot,
    /// Without credentials.
    Anonymous,
}

/// How far the connection to Wikidata has got.
pub enum Connect {
    /// Try to connect and to read the site list.
    Try(Access),
    /// Connected, with the site identifiers that Wikidata accepts.
    Connected(Access, TitleSet),
    /// There is no connection.
    Failed(Failure),
}

impl Connect {
    /// Start connecting.
    ///
    /// The bot's credentials are reused, since an owner-only `OAuth2` consumer
    /// registered on Meta is valid across Wikimedia wikis and authenticated
    /// requests are rate-limited far less aggressively.
    pub fn start() -> (next: Connect)
        ensures
            next == Connect::Try(Access::Bot),
    {
        Connect::Try(Access::Bot)
    }
}

/// Go on with the outcome of an attempt to connect. If the bot's credentials
/// are not accepted, the scan falls back to anonymous access.
pub fn after_attempt(access: Access, outcome: Result<TitleSet, Failure>) -> (next: Connect)
    ensures
        match (access, outcome) {
            (_, Ok(sites)) => next == Connect::Connected(access, sites),
            (Access::Bot, Err(_)) => next == Connect::Try(Access::Anonymous),
            (Access::Anonymous, Err(failure)) => next == Connect::Failed(failure),
        },
{
    match (access, outcome) {
        (_, Ok(sites)) => Connect::Connected(access, sites),
        (Access::Bot, Err(_)) => Connect::Try(Access::Anonymous),
        (Access::Anonymous, Err(failure)) => Connect::Failed(failure),
    }
}

/// The first of the parameters that is called `sites`.
pub open spec fn sites_parameter(params: Seq<Json>) -> Option<Json>
    decreases params.len(),
{
    if params.len() == 0 {
        None
    } else if params[0].member("name"@).text() == Some("sites"@) {
        Some(params[0])
    } else {
        sites_parameter(params.skip(1))
    }
}

/// The parameters of a question for the parameters of `wbgetentities`.
pub open spec fn known_sites_params() -> Seq<(Seq<char>, Seq<char>)> {
    seq![
        ("action"@, "paraminfo"@),
        ("modules"@, "wbgetentities"@),
        ("formatversion"@, "2"@),
    ]
}

/// Request the parameters of `wbgetentities`.
pub fn known_sites_request() -> (params: Params)
    ensures
        crate::request::param_views(params@) == known_sites_params(),
{
    let params = build_params(
        &[("action", "paraminfo"), ("modules", "wbgetentities"), ("formatversion", "2")],
    );
    params
}

fn find_sites_parameter<'a>(params: &'a [Json]) -> (found: Option<&'a Json>)
    ensures
        match found {
            Some(param) => sites_parameter(params@) == Some(*param),
            None => sites_parameter(params@) is None,
        },
{
    let mut i: usize = 0;
    assert(params@.skip(0) =~= params@);
    while i < params.len()
        invariant
            i <= params@.len(),
            sites_parameter(params@) == sites_parameter(params@.skip(i as int)),
        decreases params@.len() - i,
    {
        let ghost rest = params@.skip(i as int);
        assert(rest[0] == params@[i as int]);
        assert(rest.skip(1) =~= params@.skip(i + 1));
        if params[i].get("name").is_str("sites") {
            return Some(&params[i]);
        }
        i += 1;
    }
    None
}

/// Read the site identifiers accepted by the `sites` parameter of
/// `wbgetentities`. A response without such a list is an error.
pub fn known_sites(resp: &Json) -> (sites: Result<TitleSet, Failure>)
    ensures
        ({
            let params = resp.member("paraminfo"@).member("modules"@).element(0).member(
                "parameters"@,
            ).elements();
            match sites {
                Ok(sites) => {
                    &&& sites_parameter(params) is Some
                    &&& sites_parameter(params)->0.member("type"@) is Array
                    &&& forall|site: Seq<char>| #[trigger]
                        sites@.contains(site) == crate::api::lists_text(
                            sites_parameter(params)->0.member("type"@).elements(),
                            site,
                        )
                },
                Err(failure) => {
                    &&& sites_parameter(params) is None || sites_parameter(params)->0.member(
                        "type"@,
                    ) !is Array
                    &&& failure is Unknown
                    &&& failure->Unknown_0@ == "wbgetentities site list is missing"@
                },
            }
        }),
{
    let params = resp.get("paraminfo").get("modules").at(0).get("parameters").items();
    let list = match find_sites_parameter(params) {
        Some(param) => param.get("type").as_array(),
        None => None,
    };
    match list {
        Some(list) => Ok(listed_texts(list.as_slice())),
        None => Err(Failure::Unknown("wbgetentities site list is missing".to_owned())),
    }
}

fn listed_texts(values: &[Json]) -> (texts: TitleSet)
    ensures
        forall|text: Seq<char>| #[trigger]
            texts@.contains(text) == crate::api::lists_text(values@, text),
{
    let mut texts = TitleSet::new();
    let mut i: usize = 0;
    while i < values.len()
        invariant
            i <= values@.len(),
            forall|text: Seq<char>| #[trigger]
                texts@.contains(text) == crate::api::lists_text(values@.take(i as int), text),
        decreases values@.len() - i,
    {
        let ghost before = texts@;
        let ghost seen = values@.take(i as int);
        let ghost value = values@[i as int];
        if let Some(text) = values[i].as_str() {
            texts.insert(text.to_owned());
        }
        i += 1;
        proof {
            let now = values@.take(i as int);
            assert forall|text: Seq<char>| #[trigger]
                texts@.contains(text) == crate::api::lists_text(now, text) by {
                assert(texts@.contains(text) == (before.contains(text) || value.text() == Some(
                    text,
                )));
                if crate::api::lists_text(now, text) {
                    let k = choose|k: int|
                        0 <= k < now.len() && (#[trigger] now[k]).text() == Some(text);
                    if k < i - 1 {
                        assert(seen[k] == now[k]);
                    } else {
                        assert(now[k] == value);
                    }
                }
                if crate::api::lists_text(seen, text) {
                    let k = choose|k: int|
                        0 <= k < seen.len() && (#[trigger] seen[k]).text() == Some(text);
                    assert(seen[k] == now[k]);
                }
                if value.text() == Some(text) {
                    assert(now[i - 1] == value);
                }
            }
        }
    }
    assert(values@.take(i as int) =~= values@);
    texts
}

/// The parameters of a question for the Japanese sitelinks of items.
pub open spec fn ids_params(ids: Seq<Seq<char>>) -> Seq<(Seq<char>, Seq<char>)> {
    seq![
        ("action"@, "wbgetentities"@),
        ("ids"@, crate::text::join(ids, "|"@)),
        ("props"@, "sitelinks"@),
        ("sitefilter"@, "jawiki"@),
        ("formatversion"@, "2"@),
    ]
}

/// Request the Japanese sitelinks of Wikidata items.
pub fn ja_titles_for_ids_request(ids: &[String]) -> (params: Params)
    ensures
        crate::request::param_views(params@) == ids_params(crate::text::texts(ids@)),
{
    let list = joined(ids, "|");
    let params = build_params(
        &[
            ("action", "wbgetentities"),
            ("ids", list.as_str()),
            ("props", "sitelinks"),
            ("sitefilter", JA_SITE),
            ("formatversion", "2"),
        ],
    );
    params
}

/// The parameters of a question for the sitelinks of articles on a site.
pub open spec fn titles_params(site: Seq<char>, titles: Seq<Seq<char>>) -> Seq<
    (Seq<char>, Seq<char>),
> {
    seq![
        ("action"@, "wbgetentities"@),
        ("sites"@, site),
        ("titles"@, crate::text::join(titles, "|"@)),
        ("props"@, "sitelinks"@),
        ("sitefilter"@, site + "|jawiki"@),
        ("formatversion"@, "2"@),
    ]
}

/// Request the sitelinks of the articles on `site`, there and on the Japanese
/// Wikipedia.
pub fn ja_titles_for_site_request(site: &str, titles: &[String]) -> (params: Params)
    ensures
        crate::request::param_views(params@) == titles_params(site@, crate::text::texts(titles@)),
{
    let list = joined(titles, "|");
    let mut filter = site.to_owned();
    filter.append("|jawiki");
    let params = build_params(
        &[
            ("action", "wbgetentities"),
            ("sites", site),
            ("titles", list.as_str()),
            ("props", "sitelinks"),
            ("sitefilter", filter.as_str()),
            ("formatversion", "2"),
        ],
    );
    params
}

/// The title that an entity links to on a site.
pub open spec fn sitelink(entity: Json, site: Seq<char>) -> Option<Seq<char>> {
    entity.member("sitelinks"@).member(site).member("title"@).text()
}

/// The Japanese titles of entities, by their ids in upper case. The last entity
/// for an id counts.
pub open spec fn ja_titles_by_id(entities: Seq<(String, Json)>) -> Map<Seq<char>, Seq<char>>
    decreases entities.len(),
{
    if entities.len() == 0 {
        Map::empty()
    } else {
        let before = ja_titles_by_id(entities.drop_last());
        match sitelink(entities.last().1, "jawiki"@) {
            Some(title) => before.insert(crate::text::upper(entities.last().0@), title),
            None => before,
        }
    }
}

/// The Japanese titles of entities, by their normalised titles on `site`. The
/// last entity for a title counts.
pub open spec fn ja_titles_by_title(
    entities: Seq<(String, Json)>,
    site: Seq<char>,
) -> Map<Seq<char>, Seq<char>>
    decreases entities.len(),
{
    if entities.len() == 0 {
        Map::empty()
    } else {
        let before = ja_titles_by_title(entities.drop_last(), site);
        match (sitelink(entities.last().1, site), sitelink(entities.last().1, "jawiki"@)) {
            (Some(source), Some(ja)) => before.insert(normalized(source), ja),
            _ => before,
        }
    }
}

fn read_sitelink<'a>(entity: &'a Json, site: &str) -> (title: Option<&'a str>)
    ensures
        match title {
            Some(title) => sitelink(*entity, site@) == Some(title@),
            None => sitelink(*entity, site@) is None,
        },
{
    entity.get("sitelinks").get(site).get("title").as_str()
}

/// Pair each returned item's source title with its Japanese sitelink.
pub fn collect_sitelinks(resp: &Json, site: &str) -> (found: TitleTable)
    ensures
        found@ == ja_titles_by_title(resp.member("entities"@).members(), site@),
{
    let entities = resp.get("entities").entries();
    let mut found = TitleTable::new();
    let mut i: usize = 0;
    while i < entities.len()
        invariant
            i <= entities@.len(),
            found@ == ja_titles_by_title(entities@.take(i as int), site@),
        decreases entities@.len() - i,
    {
        assert(entities@.take(i + 1).drop_last() =~= entities@.take(i as int));
        let entity = &entities[i].1;
        if let (Some(source), Some(ja)) = (
            read_sitelink(entity, site),
            read_sitelink(entity, JA_SITE),
        ) {
            found.insert(normalize_title(source), ja.to_owned());
        }
        i += 1;
    }
    assert(entities@.take(i as int) =~= entities@);
    found
}

impl Wikidata {
    /// Whether Wikidata knows the site of a language code.
    pub open spec fn knows(self, lang: Seq<char>) -> bool {
        self.sites@.contains(site_of(lang))
    }

    /// Read the Japanese counterparts of Wikidata items, keyed by item id.
    pub fn ja_titles_for_ids(resp: &Json) -> (found: TitleTable)
        ensures
            found@ == ja_titles_by_id(resp.member("entities"@).members()),
    {
        let entities = resp.get("entities").entries();
        let mut found = TitleTable::new();
        let mut i: usize = 0;
        while i < entities.len()
            invariant
                i <= entities@.len(),
                found@ == ja_titles_by_id(entities@.take(i as int)),
            decreases entities@.len() - i,
        {
            assert(entities@.take(i + 1).drop_last() =~= entities@.take(i as int));
            if let Some(title) = read_sitelink(&entities[i].1, JA_SITE) {
                let id = to_chars(entities[i].0.as_str());
                found.insert(to_text(uppered(id.as_slice()).as_slice()), title.to_owned());
            }
            i += 1;
        }
        assert(entities@.take(i as int) =~= entities@);
        found
    }

    /// Read the Japanese counterparts of titles on `site`, keyed by the
    /// normalised source title.
    ///
    /// Titles without a Wikidata item, or whose item has no Japanese sitelink,
    /// are absent from the result.
    pub fn ja_titles_for_site(resp: &Json, site: &str) -> (found: TitleTable)
        ensures
            found@ == ja_titles_by_title(resp.member("entities"@).members(), site@),
    {
        collect_sitelinks(resp, site)
    }

    /// Database name of the Wikipedia for `lang`, or `None` when Wikidata does
    /// not know such a site.
    #[must_use]
    pub fn site_for(&self, lang: &str) -> (site: Option<String>)
        ensures
            match site {
                Some(site) => self.knows(lang@) && site@ == site_of(lang@),
                None => !self.knows(lang@),
            },
    {
        let site = site_name(lang);
        if self.sites.contains(site.as_str()) {
            Some(site)
        } else {
            None
        }
    }
}

} // verus!
