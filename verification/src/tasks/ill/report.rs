//! The report on interlanguage links that could be plain wikilinks.

use vstd::prelude::*;
use vstd::slice::slice_subrange;

use super::jawiki::PageState;
use super::parse::LangTarget;
use crate::format::count;
use crate::moment::Moment;
use crate::text::{replaced, to_chars, to_text};

verus! {

/// How many findings to list on the report page.
pub const REPORT_LIMIT: usize = 1000;

/// Longest template call reproduced verbatim in the report.
pub const RAW_LIMIT: usize = 200;

/// An interlanguage link that could be replaced with a plain wikilink.
#[derive(Debug, PartialEq, Eq)]
pub struct Finding {
    /// Article containing the call.
    pub article: String,
    /// Japanese article name given in the call.
    pub ja_title: String,
    /// Japanese article linked from the target's Wikidata item.
    pub linked: String,
    /// The call as written in the article.
    pub raw: String,
    /// State of `ja_title` on the Japanese Wikipedia.
    pub state: PageState,
    /// The language target that resolved to a Japanese article.
    pub target: LangTarget,
}

/// The contents of a [`Finding`].
#[verifier::ext_equal]
pub struct FindingView {
    pub article: Seq<char>,
    pub ja_title: Seq<char>,
    pub linked: Seq<char>,
    pub raw: Seq<char>,
    pub state: super::jawiki::StateView,
    pub target: super::parse::TargetView,
}

impl View for Finding {
    type V = FindingView;

    open spec fn view(&self) -> FindingView {
        FindingView {
            article: self.article@,
            ja_title: self.ja_title@,
            linked: self.linked@,
            raw: self.raw@,
            state: self.state@,
            target: self.target@,
        }
    }
}

/// The contents of a sequence of findings.
pub open spec fn finding_views(findings: Seq<Finding>) -> Seq<FindingView> {
    findings.map_values(|finding: Finding| finding@)
}

/// The findings that a report lists: the first ones, up to [`REPORT_LIMIT`].
pub open spec fn listed<T>(findings: Seq<T>) -> Seq<T> {
    if findings.len() < REPORT_LIMIT {
        findings
    } else {
        findings.take(REPORT_LIMIT as int)
    }
}

/// Whether `c` is a control character.
pub open spec fn is_control(c: char) -> bool {
    c as u32 <= 0x1f || 0x7f <= c as u32 <= 0x9f
}

/// `s` with a space for each control character.
pub open spec fn flattened(s: Seq<char>) -> Seq<char> {
    s.map_values(
        |c: char|
            if is_control(c) {
                ' '
            } else {
                c
            },
    )
}

/// A call as the report shows it: its first [`RAW_LIMIT`] characters on one
/// line, with the end tag of `<nowiki>` broken up, and a mark where it is cut.
pub open spec fn sanitized(raw: Seq<char>) -> Seq<char> {
    if raw.len() > RAW_LIMIT {
        crate::text::replace(
            flattened(raw.take(RAW_LIMIT as int)),
            "</nowiki>"@,
            "</ nowiki>"@,
        ).push('…')
    } else {
        crate::text::replace(flattened(raw), "</nowiki>"@, "</ nowiki>"@)
    }
}

fn flatten(s: &[char]) -> (out: Vec<char>)
    ensures
        out@ == flattened(s@),
{
    let mut out: Vec<char> = Vec::new();
    let mut i: usize = 0;
    while i < s.len()
        invariant
            i <= s@.len(),
            out@ == flattened(s@).take(i as int),
        decreases s@.len() - i,
    {
        let c: char = s[i];
        let code: u32 = c as u32;
        if code <= 0x1f || (0x7f <= code && code <= 0x9f) {
            out.push(' ');
        } else {
            out.push(c);
        }
        i += 1;
        assert(out@ =~= flattened(s@).take(i as int));
    }
    assert(flattened(s@).take(i as int) =~= flattened(s@));
    out
}

/// Make a template call safe to place inside a `<nowiki>` table cell.
pub fn sanitize_raw(raw: &str) -> (text: String)
    ensures
        text@ == sanitized(raw@),
{
    proof {
        reveal_strlit("</nowiki>");
        assert("</nowiki>"@.len() == 9);
    }
    let chars = to_chars(raw);
    let pattern = to_chars("</nowiki>");
    let with = to_chars("</ nowiki>");
    if chars.len() > RAW_LIMIT {
        let head = flatten(slice_subrange(chars.as_slice(), 0, RAW_LIMIT));
        assert(chars@.subrange(0, RAW_LIMIT as int) =~= raw@.take(RAW_LIMIT as int));
        let mut out = replaced(head.as_slice(), pattern.as_slice(), with.as_slice());
        out.push('…');
        to_text(out.as_slice())
    } else {
        let whole = flatten(chars.as_slice());
        to_text(replaced(whole.as_slice(), pattern.as_slice(), with.as_slice()).as_slice())
    }
}

proof fn lemma_tag_texts()
    ensures
        "</nowiki>"@ =~= seq!['<', '/', 'n', 'o', 'w', 'i', 'k', 'i', '>'],
        "</ nowiki>"@ =~= seq!['<', '/', ' ', 'n', 'o', 'w', 'i', 'k', 'i', '>'],
{
    reveal_strlit("</nowiki>");
    reveal_strlit("</ nowiki>");
    assert("</nowiki>"@.len() == 9);
    assert("</ nowiki>"@.len() == 10);
}

proof fn lemma_broken_up(s: Seq<char>, start: int)
    requires
        0 <= start <= s.len(),
        forall|i: int| 0 <= i < s.len() ==> !is_control(#[trigger] s[i]),
    ensures
        ({
            let out = crate::text::replace_from(s, "</nowiki>"@, "</ nowiki>"@, start);
            &&& forall|i: int| !crate::text::occurs_at(out, "</nowiki>"@, i)
            &&& forall|i: int| 0 <= i < out.len() ==> !is_control(#[trigger] out[i])
        }),
    decreases s.len() - start,
{
    lemma_tag_texts();
    let tag = "</nowiki>"@;
    let with = "</ nowiki>"@;
    let out = crate::text::replace_from(s, tag, with, start);
    crate::text::lemma_find_from(s, tag, start);
    match crate::text::find_from(s, tag, start) {
        Some(k) => {
            let head = s.subrange(start, k);
            let rest = crate::text::replace_from(s, tag, with, k + tag.len());
            let n = head.len() as int;
            lemma_broken_up(s, k + tag.len());
            assert(out == head + with + rest);
            assert forall|i: int| !crate::text::occurs_at(out, tag, i) by {
                if crate::text::occurs_at(out, tag, i) {
                    let part = out.subrange(i, i + tag.len());
                    assert(part[0] == '<' && part[2] == 'n');
                    if i < n && i + tag.len() <= n {
                        assert(s.subrange(start + i, start + i + tag.len()) =~= part);
                        assert(crate::text::occurs_at(s, tag, start + i));
                    } else if i < n {
                        assert(part[n - i] == with[0]);
                    } else if i < n + with.len() {
                        assert(out[i] == with[i - n]);
                        assert(part[0] == out[i]);
                        assert(i == n);
                        assert(part[2] == with[2]);
                    } else {
                        let j = i - n - with.len();
                        assert(rest.subrange(j, j + tag.len()) =~= part);
                        assert(crate::text::occurs_at(rest, tag, j));
                    }
                }
            }
            assert forall|i: int| 0 <= i < out.len() implies !is_control(#[trigger] out[i]) by {
                if i < n {
                    assert(out[i] == s[start + i]);
                } else if i < n + with.len() {
                    assert(out[i] == with[i - n]);
                } else {
                    assert(out[i] == rest[i - n - with.len()]);
                }
            }
        },
        None => {
            assert forall|i: int| !crate::text::occurs_at(out, tag, i) by {
                if crate::text::occurs_at(out, tag, i) {
                    assert(s.subrange(start + i, start + i + tag.len()) =~= out.subrange(
                        i,
                        i + tag.len(),
                    ));
                    assert(crate::text::occurs_at(s, tag, start + i));
                }
            }
        },
    }
}

/// A sanitised call cannot leave its table cell: it holds no end tag of
/// `<nowiki>` and no control character, hence no line break.
pub proof fn sanitized_calls_are_safe(raw: Seq<char>)
    ensures
        !crate::text::occurs(sanitized(raw), "</nowiki>"@),
        forall|i: int|
            0 <= i < sanitized(raw).len() ==> !is_control(#[trigger] sanitized(raw)[i]),
{
    lemma_tag_texts();
    let tag = "</nowiki>"@;
    let out = sanitized(raw);
    if raw.len() > RAW_LIMIT {
        let head = flattened(raw.take(RAW_LIMIT as int));
        let cut = crate::text::replace(head, tag, "</ nowiki>"@);
        lemma_broken_up(head, 0);
        assert(out =~= cut.push('…'));
        assert forall|i: int| !crate::text::occurs_at(out, tag, i) by {
            if crate::text::occurs_at(out, tag, i) {
                let part = out.subrange(i, i + tag.len());
                if i + tag.len() <= cut.len() {
                    assert(cut.subrange(i, i + tag.len()) =~= part);
                    assert(crate::text::occurs_at(cut, tag, i));
                } else {
                    assert(part[8] == '…');
                }
            }
        }
    } else {
        lemma_broken_up(flattened(raw), 0);
    }
}

/// A call of at most [`RAW_LIMIT`] characters that is safe as it stands is
/// reproduced verbatim.
pub proof fn short_safe_calls_are_verbatim(raw: Seq<char>)
    requires
        raw.len() <= RAW_LIMIT,
        !crate::text::occurs(raw, "</nowiki>"@),
        forall|i: int| 0 <= i < raw.len() ==> !is_control(#[trigger] raw[i]),
    ensures
        sanitized(raw) == raw,
{
    assert(flattened(raw) =~= raw);
    crate::text::lemma_find_from(raw, "</nowiki>"@, 0);
    assert(raw.skip(0) =~= raw);
}

/// The words that say why the Japanese article name of a finding is unresolved.
pub open spec fn state_text(finding: FindingView) -> Seq<char> {
    match finding.state {
        super::jawiki::StateView::Redirect(target) => "[["@ + finding.ja_title + "]]は[["@ + target
            + "]]へのリダイレクト"@,
        _ => "[["@ + finding.ja_title + "]]は未作成"@,
    }
}

/// Describe why the Japanese article name of a finding is unresolved.
pub fn describe_state(finding: &Finding) -> (text: String)
    ensures
        text@ == state_text(finding@),
{
    let mut text = "[[".to_owned();
    text.append(finding.ja_title.as_str());
    match &finding.state {
        PageState::Redirect(target) => {
            text.append("]]は[[");
            text.append(target.as_str());
            text.append("]]へのリダイレクト");
        },
        PageState::Missing | PageState::Exists => {
            text.append("]]は未作成");
        },
    }
    text
}

/// The table row of a finding.
pub open spec fn report_row(finding: FindingView) -> Seq<char> {
    "|-\n| [["@ + finding.article + "]]\n| <code><nowiki>"@ + sanitized(finding.raw)
        + "</nowiki></code>\n| "@ + state_text(finding) + "\n| [[:"@ + finding.target.lang + ":"@
        + finding.target.title + "|"@ + finding.target.lang + ":"@ + finding.target.title
        + "]]\n| [["@ + finding.linked + "]]\n"@
}

/// The table rows of the findings.
pub open spec fn report_rows(findings: Seq<FindingView>) -> Seq<char>
    decreases findings.len(),
{
    if findings.len() == 0 {
        seq![]
    } else {
        report_rows(findings.drop_last()) + report_row(findings.last())
    }
}

/// The note on how many of the findings are listed, where not all are.
pub open spec fn shown_text(shown: nat, total: nat) -> Seq<char> {
    if total > shown {
        "（うち"@ + crate::format::count_text(shown) + "件を表示）"@
    } else {
        seq![]
    }
}

/// What stands above the table rows.
pub open spec fn report_head(shown: nat, total: nat, scanned: nat, updated: Seq<char>) -> Seq<char> {
    "仮リンクのリンク先記事のウィキデータ項目に、日本語版記事がリンクされているものの一覧です。第1引数の日本語版記事名が存在しないか、リダイレクトになっているものを対象としています。\n\n最終更新: "@
        + updated + " (UTC)\n\n走査した記事: "@ + crate::format::count_text(scanned) + "件 / 検出: "@
        + crate::format::count_text(total) + "件"@ + shown_text(shown, total)
        + "\n\n{| class=\"wikitable sortable\"\n|-\n! 記事\n! 仮リンクの記述\n! 第1引数の状態\n! リンク先\n! 日本語版記事\n"@
}

/// The wikitext of the report. The table lists at most [`REPORT_LIMIT`]
/// findings.
pub open spec fn report_text(
    findings: Seq<FindingView>,
    total: nat,
    scanned: nat,
    updated: Seq<char>,
) -> Seq<char> {
    report_head(listed(findings).len(), total, scanned, updated) + report_rows(listed(findings))
        + "|}\n"@
}

fn write_row(out: &mut String, finding: &Finding)
    ensures
        final(out)@ == old(out)@ + report_row(finding@),
{
    out.append("|-\n| [[");
    out.append(finding.article.as_str());
    out.append("]]\n| <code><nowiki>");
    out.append(sanitize_raw(finding.raw.as_str()).as_str());
    out.append("</nowiki></code>\n| ");
    out.append(describe_state(finding).as_str());
    out.append("\n| [[:");
    out.append(finding.target.lang.as_str());
    out.append(":");
    out.append(finding.target.title.as_str());
    out.append("|");
    out.append(finding.target.lang.as_str());
    out.append(":");
    out.append(finding.target.title.as_str());
    out.append("]]\n| [[");
    out.append(finding.linked.as_str());
    out.append("]]\n");
    assert(out@ =~= old(out)@ + report_row(finding@));
}

/// Render the report with the update time as text.
pub fn render_report(findings: &[Finding], total: usize, scanned: usize, updated: &str) -> (out:
    String)
    ensures
        out@ == report_text(
            finding_views(findings@),
            total as nat,
            scanned as nat,
            updated@,
        ),
{
    let shown: usize = if findings.len() < REPORT_LIMIT {
        findings.len()
    } else {
        REPORT_LIMIT
    };
    let ghost views = listed(finding_views(findings@));
    let mut out =
        "仮リンクのリンク先記事のウィキデータ項目に、日本語版記事がリンクされているものの一覧です。第1引数の日本語版記事名が存在しないか、リダイレクトになっているものを対象としています。\n\n最終更新: ".to_owned();
    out.append(updated);
    out.append(" (UTC)\n\n走査した記事: ");
    out.append(count(scanned as u64).as_str());
    out.append("件 / 検出: ");
    out.append(count(total as u64).as_str());
    out.append("件");
    let mut note = String::new();
    if total > shown {
        note.append("（うち");
        note.append(count(shown as u64).as_str());
        note.append("件を表示）");
    }
    assert(note@ =~= shown_text(views.len(), total as nat));
    out.append(note.as_str());
    out.append(
        "\n\n{| class=\"wikitable sortable\"\n|-\n! 記事\n! 仮リンクの記述\n! 第1引数の状態\n! リンク先\n! 日本語版記事\n",
    );
    let ghost head = report_head(views.len(), total as nat, scanned as nat, updated@);
    assert(out@ == head);
    let mut i: usize = 0;
    assert(out@ =~= head + report_rows(views.take(0)));
    while i < shown
        invariant
            i <= shown <= findings@.len(),
            shown == views.len(),
            views == listed(finding_views(findings@)),
            out@ == head + report_rows(views.take(i as int)),
        decreases shown - i,
    {
        write_row(&mut out, &findings[i]);
        i += 1;
        proof {
            let seen = views.take(i as int);
            assert(seen.drop_last() =~= views.take(i - 1));
            assert(seen.last() == findings@[i - 1]@);
            assert(out@ =~= head + report_rows(seen));
        }
    }
    assert(views.take(i as int) =~= views);
    out.append("|}\n");
    out
}

/// Render the report page.
///
/// The table lists at most [`REPORT_LIMIT`] findings; `total` reports how many
/// were actually found so a truncated list is still honest about its scope.
#[must_use]
pub fn build_report(findings: &[Finding], total: usize, scanned: usize, updated: Moment) -> (out:
    String)
    requires
        updated.is_valid(),
    ensures
        out@ == report_text(
            finding_views(findings@),
            total as nat,
            scanned as nat,
            crate::moment::utc_text(updated.secs, updated.nanos, "%Y-%m-%d %H:%M"@),
        ),
{
    let text = updated.minute_text();
    render_report(findings, total, scanned, text.as_str())
}

} // verus!
