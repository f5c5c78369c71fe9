//! What reports and log lines of a scan say.

use vstd::prelude::*;

use crate::number;
use crate::tasks::ill::jawiki::StateView;
use crate::tasks::ill::pace;
use crate::tasks::ill::pace::{Api, RoundStats};
use crate::tasks::ill::report;
use crate::tasks::ill::report::FindingView;
use crate::tasks::ill::round::Counts;
use crate::text_laws;

verus! {

/// A report lists the first thousand findings.
pub proof fn the_first_thousand_are_listed<T>(findings: Seq<T>, i: int)
    ensures
        report::listed(findings).len() == (if findings.len() < 1000 {
            findings.len() as int
        } else {
            1000
        }),
        0 <= i < report::listed(findings).len() ==> report::listed(findings)[i] == findings[i],
{
}

/// A control character is one of the first block of characters, or of the one
/// behind ASCII.
pub open spec fn controls(c: char) -> bool {
    c <= '\u{1f}' || ('\u{7f}' <= c && c <= '\u{9f}')
}

/// A text with a space in the place of each control character.
pub open spec fn spaced(s: Seq<char>) -> Seq<char> {
    Seq::new(
        s.len(),
        |i: int|
            if controls(s[i]) {
                ' '
            } else {
                s[i]
            },
    )
}

pub open spec fn end_tag() -> Seq<char> {
    seq!['<', '/', 'n', 'o', 'w', 'i', 'k', 'i', '>']
}

pub open spec fn broken_tag() -> Seq<char> {
    seq!['<', '/', ' ', 'n', 'o', 'w', 'i', 'k', 'i', '>']
}

proof fn lemma_tags()
    ensures
        "</nowiki>"@ == end_tag(),
        "</ nowiki>"@ == broken_tag(),
        end_tag().len() == 9,
        forall|k: int|
            0 <= k < 9 ==> #[trigger] end_tag()[k] != ' ' && !controls(end_tag()[k]),
{
    reveal_strlit("</nowiki>");
    reveal_strlit("</ nowiki>");
    assert("</nowiki>"@.len() == 9);
    assert("</ nowiki>"@.len() == 10);
    assert("</nowiki>"@ =~= end_tag());
    assert("</ nowiki>"@ =~= broken_tag());
}

proof fn lemma_spaced(s: Seq<char>)
    ensures
        report::flattened(s) == spaced(s),
{
    assert forall|i: int| 0 <= i < s.len() implies report::flattened(s)[i] == spaced(s)[i] by {
        lemma_controls(s[i]);
    }
    assert(report::flattened(s) =~= spaced(s));
}

proof fn lemma_controls(c: char)
    ensures
        report::is_control(c) == controls(c),
{
}

proof fn lemma_tags_stay(s: Seq<char>, j: int)
    ensures
        text_laws::stands_in(spaced(s), end_tag(), j) == text_laws::stands_in(s, end_tag(), j),
{
    lemma_tags();
    let tag = end_tag();
    if text_laws::stands_in(spaced(s), tag, j) {
        assert forall|k: int| 0 <= k < tag.len() implies #[trigger] tag[k] == s[j + k] by {
            assert(tag[k] == spaced(s)[j + k]);
        }
    }
    if text_laws::stands_in(s, tag, j) {
        assert forall|k: int| 0 <= k < tag.len() implies #[trigger] tag[k] == spaced(s)[j + k] by {
            assert(tag[k] == s[j + k]);
            assert(!controls(tag[k]));
        }
    }
}

/// A call without an end tag of `<nowiki>` is shown with spaces for its control
/// characters.
pub proof fn calls_are_shown_on_one_line(raw: Seq<char>)
    requires
        raw.len() <= 200,
        forall|j: int| !#[trigger] text_laws::stands_in(raw, end_tag(), j),
    ensures
        report::sanitized(raw) == spaced(raw),
{
    lemma_tags();
    lemma_spaced(raw);
    assert forall|j: int| !#[trigger] text_laws::stands_in(spaced(raw), end_tag(), j) by {
        lemma_tags_stay(raw, j);
    }
    text_laws::replacing_nothing(spaced(raw), end_tag(), broken_tag());
}

/// An end tag of `<nowiki>` is broken up wherever it stands.
pub proof fn end_tags_are_broken_up(before: Seq<char>, after: Seq<char>)
    requires
        before.len() + after.len() <= 191,
        forall|j: int|
            0 <= j < before.len() ==> !#[trigger] text_laws::stands_in(
                before + end_tag() + after,
                end_tag(),
                j,
            ),
    ensures
        report::sanitized(before + end_tag() + after) == spaced(before) + broken_tag()
            + report::sanitized(after),
{
    lemma_tags();
    let tag = end_tag();
    let raw = before + tag + after;
    lemma_spaced(raw);
    lemma_spaced(after);
    assert(spaced(tag) =~= tag);
    assert(spaced(raw) =~= spaced(before) + tag + spaced(after)) by {
        assert forall|i: int| 0 <= i < raw.len() implies spaced(raw)[i] == (spaced(before) + tag
            + spaced(after))[i] by {
            if i < before.len() {
                assert(raw[i] == before[i]);
            } else if i < before.len() + 9 {
                assert(raw[i] == tag[i - before.len()]);
            } else {
                assert(raw[i] == after[i - before.len() - 9]);
            }
        }
    }
    assert forall|j: int| 0 <= j < spaced(before).len() implies !#[trigger] text_laws::stands_in(
        spaced(before) + tag + spaced(after),
        tag,
        j,
    ) by {
        lemma_tags_stay(raw, j);
        assert(!text_laws::stands_in(raw, tag, j));
    }
    text_laws::replacing_goes_from_the_front(spaced(before), tag, spaced(after), broken_tag());
}

/// A call of more than two hundred characters is cut there, and an ellipsis says
/// so.
pub proof fn long_calls_are_cut(raw: Seq<char>)
    requires
        raw.len() > 200,
    ensures
        report::sanitized(raw) == report::sanitized(raw.take(200)).push('…'),
{
}

/// What is said of the title of a finding: what it redirects to, or that there is
/// no article.
pub proof fn the_state_of_a_title(finding: FindingView)
    ensures
        match finding.state {
            StateView::Redirect(target) => report::state_text(finding) == "[["@ + finding.ja_title
                + "]]は[["@ + target + "]]へのリダイレクト"@,
            StateView::Missing => report::state_text(finding) == "[["@ + finding.ja_title
                + "]]は未作成"@,
            StateView::Exists => true,
        },
{
}

/// The row of a finding: its article, its call, the state of its title, its target
/// and the article that the target leads to.
pub proof fn the_row_of_a_finding(finding: FindingView)
    ensures
        ({
            let place = finding.target.lang + ":"@ + finding.target.title;
            report::report_row(finding) == "|-\n| [["@ + finding.article
                + "]]\n| <code><nowiki>"@ + report::sanitized(finding.raw)
                + "</nowiki></code>\n| "@ + report::state_text(finding) + "\n| [[:"@ + place + "|"@
                + place + "]]\n| [["@ + finding.linked + "]]\n"@
        }),
{
    let place = finding.target.lang + ":"@ + finding.target.title;
    let start = "|-\n| [["@ + finding.article + "]]\n| <code><nowiki>"@ + report::sanitized(
        finding.raw,
    ) + "</nowiki></code>\n| "@ + report::state_text(finding) + "\n| [[:"@;
    assert(start + finding.target.lang + ":"@ + finding.target.title =~= start + place);
    let middle = start + place + "|"@;
    assert(middle + finding.target.lang + ":"@ + finding.target.title =~= middle + place);
}

/// Rows follow each other in the order of the findings.
pub proof fn rows_follow_each_other(findings: Seq<FindingView>, finding: FindingView)
    ensures
        report::report_rows(seq![]).len() == 0,
        report::report_rows(findings.push(finding)) == report::report_rows(findings)
            + report::report_row(finding),
{
    assert(findings.push(finding).drop_last() =~= findings);
}

/// A report tells how many findings it shows where it does not show all of them,
/// and only there.
pub proof fn reports_tell_what_they_show(shown: nat, total: nat)
    ensures
        total > shown ==> report::shown_text(shown, total) == "（うち"@ + crate::format::count_text(shown)
            + "件を表示）"@,
        total <= shown ==> report::shown_text(shown, total).len() == 0,
{
}

/// A report has the counts of the scan at its head, then the rows of the findings
/// that it lists, then its end.
pub proof fn a_report_of_a_scan(
    findings: Seq<FindingView>,
    total: nat,
    scanned: nat,
    updated: Seq<char>,
)
    ensures
        report::report_text(findings, total, scanned, updated)
            == "仮リンクのリンク先記事のウィキデータ項目に、日本語版記事がリンクされているものの一覧です。第1引数の日本語版記事名が存在しないか、リダイレクトになっているものを対象としています。\n\n最終更新: "@
            + updated + " (UTC)\n\n走査した記事: "@ + crate::format::count_text(scanned)
            + "件 / 検出: "@ + crate::format::count_text(total) + "件"@ + report::shown_text(
            report::listed(findings).len(),
            total,
        )
            + "\n\n{| class=\"wikitable sortable\"\n|-\n! 記事\n! 仮リンクの記述\n! 第1引数の状態\n! リンク先\n! 日本語版記事\n"@
            + report::report_rows(report::listed(findings)) + "|}\n"@,
{
}

/// The share of articles scanned, in whole percent, rounded down.
pub proof fn shares_are_rounded_down(scanned: nat, articles: nat)
    requires
        articles > 0,
    ensures
        pace::percent(scanned, articles) * articles <= 100 * scanned,
        100 * scanned < (pace::percent(scanned, articles) + 1) * articles,
        pace::percent(scanned, 0) == 100,
{
    let hundredfold = scanned * 100;
    let share = hundredfold / articles;
    assert(share * articles <= hundredfold < (share + 1) * articles) by (nonlinear_arith)
        requires
            articles > 0,
            share == hundredfold / articles,
    ;
}

/// What is left is unknown until an article has been scanned.
pub proof fn time_left_is_known_later(scanned: nat, left: nat)
    ensures
        pace::left_text(0, left) == "unknown"@,
        scanned > 0 ==> pace::left_text(scanned, left) == crate::format::duration_text(left),
{
}

/// The line that tells how far a scan is.
pub proof fn the_progress_line(
    scanned: nat,
    articles: nat,
    findings: nat,
    elapsed: nat,
    left: nat,
)
    ensures
        pace::progress_text(scanned, articles, findings, elapsed, left) == "Scanned "@
            + crate::format::count_text(scanned) + "/"@ + crate::format::count_text(articles) + " articles ("@
            + number::decimal(pace::percent(scanned, articles)) + "%), "@ + crate::format::count_text(
            findings,
        ) + " findings, "@ + crate::format::duration_text(elapsed) + " elapsed, ~"@ + pace::left_text(
            scanned,
            left,
        ) + " left"@,
{
}

/// The line that tells what a round looked up.
pub proof fn the_round_line(counts: Counts, ja_seconds: Seq<char>, sitelink_seconds: Seq<char>)
    ensures
        pace::round_text(counts, ja_seconds, sitelink_seconds) == "round: "@ + number::decimal(
            counts.calls as nat,
        ) + " calls, "@ + number::decimal(counts.titles as nat) + " titles in "@
            + number::decimal(counts.title_requests as nat) + " requests ("@ + ja_seconds
            + "s), "@ + number::decimal(counts.sitelinks as nat) + " sitelinks in "@
            + number::decimal(counts.sitelink_requests as nat) + " requests ("@ + sitelink_seconds
            + "s)"@,
{
}

/// The line that warns of throttling.
pub proof fn the_warning_line(api: Seq<char>, seconds: Seq<char>)
    ensures
        pace::warning_text(api, seconds) == api + ": "@ + seconds
            + "s per request, far above a normal round trip. The API is rate-limiting the bot, so this scan will take much longer than usual."@,
{
}

/// An interface is slow where it was asked at all and took three seconds or more
/// per request. Where both are slow the slower one is to blame, Wikidata where they
/// are equally slow.
pub proof fn slow_interfaces_are_blamed(stats: RoundStats)
    ensures
        ({
            let jawiki = stats.ja_requests > 0 && stats.ja_pace >= 0x4040_0000;
            let wikidata = stats.sitelink_requests > 0 && stats.sitelink_pace >= 0x4040_0000;
            &&& stats.culprit() == Some(Api::Jawiki) <==> jawiki && (!wikidata || stats.ja_pace
                > stats.sitelink_pace)
            &&& stats.culprit() == Some(Api::Wikidata) <==> wikidata && (!jawiki
                || stats.sitelink_pace >= stats.ja_pace)
            &&& pace::PROGRESS_INTERVAL == 300
        }),
{
}

} // verus!
