//! What requests ask for.

use vstd::prelude::*;

use crate::api;
use crate::number;
use crate::tasks::ill::jawiki;
use crate::tasks::ill::scan;
use crate::tasks::ill::wikidata;
use crate::tasks::recentchanges;
use crate::text;

verus! {

/// Numbers are written in decimal, one by one.
pub proof fn numbers_are_written_in_decimal(numbers: Seq<u64>, i: int)
    requires
        0 <= i < numbers.len(),
    ensures
        crate::request::decimals(numbers).len() == numbers.len(),
        crate::request::decimals(numbers)[i] == number::decimal(numbers[i] as nat),
{
}

/// A request for a special page asks for five hundred results from an offset on.
pub proof fn a_request_for_a_special_page(page: Seq<char>, offset: nat)
    ensures
        api::query_page_params(page, offset) == seq![
            ("action"@, "query"@),
            ("list"@, "querypage"@),
            ("qppage"@, page),
            ("qplimit"@, number::decimal(500)),
            ("qpoffset"@, number::decimal(offset)),
        ],
{
}

/// A request for the documentation of templates names them all.
pub proof fn a_request_for_templatedata(titles: Seq<Seq<char>>)
    ensures
        api::templatedata_params(titles) == seq![
            ("action"@, "templatedata"@),
            ("titles"@, text::join(titles, "|"@)),
        ],
{
}

/// A request for the rights of the bot.
pub proof fn a_request_for_rights()
    ensures
        api::rights_params() == seq![
            ("action"@, "query"@),
            ("meta"@, "userinfo"@),
            ("uiprop"@, "rights"@),
        ],
{
}

/// A request for the uses of a template asks for articles, so many at a time.
pub proof fn a_request_for_uses(title: Seq<char>, limit: nat)
    ensures
        api::transclusions_params(title, limit) == seq![
            ("action"@, "query"@),
            ("prop"@, "transcludedin"@),
            ("titles"@, title),
            ("tinamespace"@, number::decimal(0)),
            ("tilimit"@, number::decimal(limit)),
        ],
{
}

/// A request for texts names the pages by number.
pub proof fn a_request_for_texts(ids: Seq<u64>)
    ensures
        api::page_contents_params(ids) == seq![
            ("action"@, "query"@),
            ("prop"@, "revisions"@),
            ("rvprop"@, "content"@),
            ("rvslots"@, "main"@),
            ("pageids"@, text::join(crate::request::decimals(ids), "|"@)),
            ("formatversion"@, "2"@),
        ],
{
}

/// A request for articles with interlanguage links leaves redirects out, and goes
/// on where it is told to.
pub proof fn a_request_for_articles(resume: Option<Seq<char>>)
    ensures
        ({
            let first = seq![
                ("action"@, "query"@),
                ("list"@, "embeddedin"@),
                ("eititle"@, "Template:仮リンク"@),
                ("einamespace"@, number::decimal(0)),
                ("eifilterredir"@, "nonredirects"@),
                ("eilimit"@, "max"@),
                ("formatversion"@, "2"@),
            ];
            &&& resume is None ==> scan::articles_params(resume) == first
            &&& resume is Some ==> scan::articles_params(resume) == first + seq![
                ("eicontinue"@, resume->0),
            ]
        }),
{
    if let Some(value) = resume {
        let base = scan::articles_params(None);
        assert(base.push(("eicontinue"@, value)) =~= base + seq![("eicontinue"@, value)]);
    }
}

/// A request for the states of titles follows redirects.
pub proof fn a_request_for_states(titles: Seq<Seq<char>>)
    ensures
        jawiki::page_states_params(titles) == seq![
            ("action"@, "query"@),
            ("prop"@, "info"@),
            ("titles"@, text::join(titles, "|"@)),
            ("redirects"@, "1"@),
            ("formatversion"@, "2"@),
        ],
{
}

/// A request for the sites that Wikidata knows.
pub proof fn a_request_for_sites()
    ensures
        wikidata::known_sites_params() == seq![
            ("action"@, "paraminfo"@),
            ("modules"@, "wbgetentities"@),
            ("formatversion"@, "2"@),
        ],
{
}

/// A request for counterparts by id asks for the Japanese ones.
pub proof fn a_request_for_counterparts_by_id(ids: Seq<Seq<char>>)
    ensures
        wikidata::ids_params(ids) == seq![
            ("action"@, "wbgetentities"@),
            ("ids"@, text::join(ids, "|"@)),
            ("props"@, "sitelinks"@),
            ("sitefilter"@, "jawiki"@),
            ("formatversion"@, "2"@),
        ],
{
}

/// A request for counterparts by title asks for the Japanese ones and those on the
/// site itself.
pub proof fn a_request_for_counterparts_by_title(site: Seq<char>, titles: Seq<Seq<char>>)
    ensures
        wikidata::titles_params(site, titles) == seq![
            ("action"@, "wbgetentities"@),
            ("sites"@, site),
            ("titles"@, text::join(titles, "|"@)),
            ("props"@, "sitelinks"@),
            ("sitefilter"@, site + "|jawiki"@),
            ("formatversion"@, "2"@),
        ],
{
}

/// A request for recent changes asks for fifty, oldest first, from a time on.
pub proof fn a_request_for_recent_changes(since: Seq<char>)
    ensures
        recentchanges::recent_changes_params(since) == seq![
            ("action"@, "query"@),
            ("list"@, "recentchanges"@),
            ("rcprop"@, "ids|title|user|timestamp"@),
            ("rclimit"@, number::decimal(50)),
            ("rcdir"@, "newer"@),
            ("rcstart"@, since),
        ],
{
}

/// A request for the edit counts of users names them all.
pub proof fn a_request_for_edit_counts(users: Seq<Seq<char>>)
    ensures
        recentchanges::edit_counts_params(users) == seq![
            ("action"@, "query"@),
            ("list"@, "users"@),
            ("ususers"@, text::join(users, "|"@)),
            ("usprop"@, "editcount"@),
        ],
{
}

/// A request for the first revision of a page, and one for what an edit changed.
pub proof fn requests_for_an_edit(old_revid: nat, revid: nat)
    ensures
        recentchanges::initial_revision_params(revid) == seq![
            ("action"@, "query"@),
            ("prop"@, "revisions"@),
            ("rvprop"@, "content"@),
            ("rvslots"@, "main"@),
            ("revids"@, number::decimal(revid)),
            ("formatversion"@, "2"@),
        ],
        recentchanges::diff_params(old_revid, revid) == seq![
            ("action"@, "compare"@),
            ("fromrev"@, number::decimal(old_revid)),
            ("torev"@, number::decimal(revid)),
            ("formatversion"@, "2"@),
        ],
{
}

} // verus!
