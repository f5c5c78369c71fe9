//! How fast a scan goes: progress lines and warnings of rate limiting.

use vstd::prelude::*;

use crate::format::{count, duration};
use crate::number::decimal_text;

verus! {

/// How often to log scan progress, in seconds. Time-based rather than
/// article-based, so the log keeps a steady pace even when the API slows the
/// scan down.
pub const PROGRESS_INTERVAL: u64 = 300;

/// The pace from which on the scan is assumed to be rate-limited: three seconds
/// per request. A normal round trip takes well under a second, so anything this
/// slow is time spent waiting out a `429`.
pub const SLOW_PACE: u32 = 0x4040_0000;

/// How much work one round's lookups took, used to notice rate limiting.
///
/// A pace is a number of seconds per request, given by the bits of the single
/// precision number. Bits are ordered as the numbers are, as no pace is
/// negative. The pace of lookups that made no request has no meaning.
#[derive(Debug, Clone, Copy, PartialEq, Eq, Structural)]
pub struct RoundStats {
    /// Requests made looking up Japanese article names.
    pub ja_requests: usize,
    /// Pace of the lookups of Japanese article names.
    pub ja_pace: u32,
    /// Requests made looking up Wikidata sitelinks.
    pub sitelink_requests: usize,
    /// Pace of the lookups of Wikidata sitelinks.
    pub sitelink_pace: u32,
}

/// An API that lookups go to.
#[derive(Debug, Clone, Copy, PartialEq, Eq, Structural)]
pub enum Api {
    Jawiki,
    Wikidata,
}

impl RoundStats {
    /// Whether the lookups of Japanese article names were slow.
    pub open spec fn is_jawiki_slow(self) -> bool {
        self.ja_requests > 0 && self.ja_pace >= SLOW_PACE
    }

    /// Whether the lookups of Wikidata sitelinks were slow.
    pub open spec fn is_wikidata_slow(self) -> bool {
        self.sitelink_requests > 0 && self.sitelink_pace >= SLOW_PACE
    }

    /// The slower of the slow APIs.
    pub open spec fn culprit(self) -> Option<Api> {
        if self.is_jawiki_slow() && self.is_wikidata_slow() {
            if self.ja_pace > self.sitelink_pace {
                Some(Api::Jawiki)
            } else {
                Some(Api::Wikidata)
            }
        } else if self.is_jawiki_slow() {
            Some(Api::Jawiki)
        } else if self.is_wikidata_slow() {
            Some(Api::Wikidata)
        } else {
            None
        }
    }

    /// Find the API that is rate-limiting the bot, if one is.
    pub fn slow_api(self) -> (api: Option<Api>)
        ensures
            api == self.culprit(),
    {
        let jawiki: bool = self.ja_requests > 0 && self.ja_pace >= SLOW_PACE;
        let wikidata: bool = self.sitelink_requests > 0 && self.sitelink_pace >= SLOW_PACE;
        if jawiki && !(wikidata && self.sitelink_pace >= self.ja_pace) {
            Some(Api::Jawiki)
        } else if wikidata {
            Some(Api::Wikidata)
        } else {
            None
        }
    }

    /// A warning when requests took far longer than a round trip should, which
    /// in practice means the API is making the bot wait out a rate limit. The
    /// paces are also given in decimal.
    ///
    /// Reports whichever API is slower, so one warning names the real culprit.
    pub fn throttle_warning(self, ja_seconds: &str, sitelink_seconds: &str) -> (warning: Option<
        String,
    >)
        ensures
            crate::text::optional_text(warning) == (match self.culprit() {
                Some(Api::Jawiki) => Some(warning_text("jawiki"@, ja_seconds@)),
                Some(Api::Wikidata) => Some(warning_text("Wikidata"@, sitelink_seconds@)),
                None => None,
            }),
    {
        match self.slow_api() {
            Some(Api::Jawiki) => Some(warning("jawiki", ja_seconds)),
            Some(Api::Wikidata) => Some(warning("Wikidata", sitelink_seconds)),
            None => None,
        }
    }
}

/// The warning of a slow API.
pub open spec fn warning_text(api: Seq<char>, seconds: Seq<char>) -> Seq<char> {
    api + ": "@ + seconds
        + "s per request, far above a normal round trip. The API is rate-limiting the bot, so this scan will take much longer than usual."@
}

fn warning(api: &str, seconds: &str) -> (text: String)
    ensures
        text@ == warning_text(api@, seconds@),
{
    let mut text = api.to_owned();
    text.append(": ");
    text.append(seconds);
    text.append(
        "s per request, far above a normal round trip. The API is rate-limiting the bot, so this scan will take much longer than usual.",
    );
    text
}

/// Whether it is time for another progress line, so many seconds after the last
/// one.
pub fn progress_due(since_last: u64) -> (due: bool)
    ensures
        due == (since_last >= PROGRESS_INTERVAL),
{
    since_last >= PROGRESS_INTERVAL
}

/// Whether to log a warning of throttling, so many seconds after the last one.
/// Throttling persists for a while, so the warning is repeated no more often
/// than the progress line.
pub fn warning_due(since_last: Option<u64>) -> (due: bool)
    ensures
        due == (match since_last {
            Some(seconds) => seconds >= PROGRESS_INTERVAL,
            None => true,
        }),
{
    match since_last {
        Some(seconds) => seconds >= PROGRESS_INTERVAL,
        None => true,
    }
}

/// The share of articles scanned, in percent. Where there is nothing to scan,
/// all of it is done.
pub open spec fn percent(scanned: nat, articles: nat) -> nat {
    if articles == 0 {
        100
    } else {
        scanned * 100 / articles
    }
}

/// The time left, unless nothing has been scanned to go by.
pub open spec fn left_text(scanned: nat, left: nat) -> Seq<char> {
    if scanned == 0 {
        "unknown"@
    } else {
        crate::format::duration_text(left)
    }
}

/// The progress line.
pub open spec fn progress_text(
    scanned: nat,
    articles: nat,
    findings: nat,
    elapsed: nat,
    left: nat,
) -> Seq<char> {
    "Scanned "@ + crate::format::count_text(scanned) + "/"@ + crate::format::count_text(articles)
        + " articles ("@ + crate::number::decimal(percent(scanned, articles)) + "%), "@
        + crate::format::count_text(findings) + " findings, "@ + crate::format::duration_text(
        elapsed,
    ) + " elapsed, ~"@ + left_text(scanned, left) + " left"@
}

/// Format a progress line: how far the scan has got, and how long it has taken
/// against how long the rest is expected to take. Times are in seconds; the
/// time left counts once an article has been scanned.
pub fn progress(scanned: usize, articles: usize, findings: usize, elapsed: u64, left: u64) -> (line:
    String)
    requires
        scanned * 100 <= usize::MAX,
    ensures
        line@ == progress_text(
            scanned as nat,
            articles as nat,
            findings as nat,
            elapsed as nat,
            left as nat,
        ),
{
    let share: usize = if articles == 0 {
        100
    } else {
        scanned * 100 / articles
    };
    let rest: String = if scanned == 0 {
        "unknown".to_owned()
    } else {
        duration(left)
    };
    let mut line = "Scanned ".to_owned();
    line.append(count(scanned as u64).as_str());
    line.append("/");
    line.append(count(articles as u64).as_str());
    line.append(" articles (");
    line.append(decimal_text(share as u64).as_str());
    line.append("%), ");
    line.append(count(findings as u64).as_str());
    line.append(" findings, ");
    line.append(duration(elapsed).as_str());
    line.append(" elapsed, ~");
    line.append(rest.as_str());
    line.append(" left");
    line
}

/// The line on the lookups of a round, with the times that they took in
/// decimal.
pub open spec fn round_text(
    counts: super::round::Counts,
    ja_seconds: Seq<char>,
    sitelink_seconds: Seq<char>,
) -> Seq<char> {
    "round: "@ + crate::number::decimal(counts.calls as nat) + " calls, "@
        + crate::number::decimal(counts.titles as nat) + " titles in "@ + crate::number::decimal(
        counts.title_requests as nat,
    ) + " requests ("@ + ja_seconds + "s), "@ + crate::number::decimal(counts.sitelinks as nat)
        + " sitelinks in "@ + crate::number::decimal(counts.sitelink_requests as nat)
        + " requests ("@ + sitelink_seconds + "s)"@
}

/// Describe the lookups of a round and how long they took.
pub fn round_line(
    counts: super::round::Counts,
    ja_seconds: &str,
    sitelink_seconds: &str,
) -> (line: String)
    ensures
        line@ == round_text(counts, ja_seconds@, sitelink_seconds@),
{
    let mut line = "round: ".to_owned();
    line.append(decimal_text(counts.calls as u64).as_str());
    line.append(" calls, ");
    line.append(decimal_text(counts.titles as u64).as_str());
    line.append(" titles in ");
    line.append(decimal_text(counts.title_requests as u64).as_str());
    line.append(" requests (");
    line.append(ja_seconds);
    line.append("s), ");
    line.append(decimal_text(counts.sitelinks as u64).as_str());
    line.append(" sitelinks in ");
    line.append(decimal_text(counts.sitelink_requests as u64).as_str());
    line.append(" requests (");
    line.append(sitelink_seconds);
    line.append("s)");
    line
}

/// The API named is slow, and no slow API is slower.
pub proof fn the_culprit_is_the_slower_api(stats: RoundStats)
    ensures
        stats.culprit() is None <==> !stats.is_jawiki_slow() && !stats.is_wikidata_slow(),
        stats.culprit() == Some(Api::Jawiki) ==> stats.is_jawiki_slow() && (
        stats.is_wikidata_slow() ==> stats.ja_pace >= stats.sitelink_pace),
        stats.culprit() == Some(Api::Wikidata) ==> stats.is_wikidata_slow() && (
        stats.is_jawiki_slow() ==> stats.sitelink_pace >= stats.ja_pace),
{
}

/// The share of articles scanned is at most all of them, and it is all of them
/// exactly when none is left.
pub proof fn percent_is_a_share(scanned: nat, articles: nat)
    requires
        scanned <= articles,
    ensures
        percent(scanned, articles) <= 100,
        percent(scanned, articles) == 100 <==> scanned == articles,
{
    if articles > 0 {
        assert(scanned * 100 / articles <= 100) by (nonlinear_arith)
            requires
                0 <= scanned <= articles,
                articles > 0,
        ;
        assert(scanned * 100 / articles == 100 ==> scanned == articles) by (nonlinear_arith)
            requires
                0 <= scanned <= articles,
                articles > 0,
        ;
        assert(scanned == articles ==> scanned * 100 / articles == 100) by (nonlinear_arith)
            requires
                0 <= scanned <= articles,
                articles > 0,
        ;
    }
}

} // verus!
