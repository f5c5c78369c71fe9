use wikipedia_sz_bot::json::Json;
use wikipedia_sz_bot::moment::Moment;
use wikipedia_sz_bot::tasks::ill::caches::Caches;
use wikipedia_sz_bot::tasks::ill::jawiki::{PageState, StateTable};
use wikipedia_sz_bot::tasks::ill::pace::{
    progress, progress_due, warning_due, Api, RoundStats, SLOW_PACE,
};
use wikipedia_sz_bot::tasks::ill::parse::{find_calls, IllCall, LangTarget};
use wikipedia_sz_bot::tasks::ill::report::{
    build_report, describe_state, render_report, sanitize_raw, Finding, RAW_LIMIT, REPORT_LIMIT,
};
use wikipedia_sz_bot::tasks::ill::scan::{
    articles_request, fetched_calls, findings, found_sitelinks, group_by_site, info_batch,
    match_target, next_step, page_limit_from, pending_calls, site_for, sitelinks_request,
    titles_to_look_up, wanted_sitelinks, Articles, Scan, ScanStep,
};
use wikipedia_sz_bot::tasks::ill::wikidata::Wikidata;
use wikipedia_sz_bot::titles::{unique, TitleSet, TitleTable};

fn finding(state: PageState) -> Finding {
    Finding {
        article: "アンパサンド".to_string(),
        ja_title: "アンペールの法則 (曖昧さ回避)".to_string(),
        linked: "アンペールの法則".to_string(),
        raw: "{{仮リンク|アンペールの法則 (曖昧さ回避)|en|Ampère's circuital law}}".to_string(),
        state,
        target: LangTarget {
            lang: "en".to_string(),
            title: "Ampère's circuital law".to_string(),
        },
    }
}

fn stats(
    ja_seconds: u64,
    ja_requests: usize,
    sitelink_seconds: u64,
    sitelink_requests: usize,
) -> (RoundStats, String, String) {
    let ja = ja_seconds as f32 / ja_requests as f32;
    let sitelink = sitelink_seconds as f32 / sitelink_requests as f32;
    let stats = RoundStats {
        ja_requests,
        ja_pace: ja.to_bits(),
        sitelink_requests,
        sitelink_pace: sitelink.to_bits(),
    };
    (stats, format!("{ja:.1}"), format!("{sitelink:.1}"))
}

fn warning(stats: (RoundStats, String, String)) -> Option<String> {
    stats.0.throttle_warning(&stats.1, &stats.2)
}

fn text(value: &str) -> Json {
    Json::Text(value.to_string())
}

fn object(members: Vec<(&str, Json)>) -> Json {
    Json::Object(
        members
            .into_iter()
            .map(|(key, value)| (key.to_string(), value))
            .collect(),
    )
}

fn wikidata(sites: &[&str]) -> Wikidata {
    let mut known = TitleSet::new();
    for site in sites {
        known.insert(site.to_string());
    }
    Wikidata { sites: known }
}

fn table(entries: &[(&str, &str)]) -> TitleTable {
    let mut table = TitleTable::new();
    for (from, to) in entries {
        table.insert(from.to_string(), to.to_string());
    }
    table
}

fn strings(values: &[&str]) -> Vec<String> {
    values.iter().map(|value| value.to_string()).collect()
}

fn calls(article: &str, wikitext: &str) -> Vec<(String, IllCall)> {
    find_calls(wikitext)
        .into_iter()
        .map(|call| (article.to_string(), call))
        .collect()
}

#[test]
fn mod_builds_table() {
    let findings = vec![finding(PageState::Missing)];
    let updated = Moment::from_rfc3339("2026-09-16T12:34:56Z").unwrap();
    let wikitext = build_report(&findings, 1, 297_792, updated);

    assert!(wikitext.contains("最終更新: 2026-09-16 12:34 (UTC)"));
    assert!(wikitext.contains("走査した記事: 297,792件 / 検出: 1件"));
    assert!(!wikitext.contains("うち"));
    assert!(wikitext.contains("| [[アンパサンド]]"));
    assert!(wikitext.contains("[[:en:Ampère's circuital law|en:Ampère's circuital law]]"));
    assert!(wikitext.contains("| [[アンペールの法則]]"));
    assert!(wikitext.contains("は未作成"));
    assert!(wikitext.ends_with("|}\n"));
}

#[test]
fn reports_truncated_count() {
    let findings = vec![finding(PageState::Missing)];
    let updated = Moment::from_rfc3339("2026-09-16T12:34:56Z").unwrap();
    let wikitext = build_report(&findings, 2500, 297_792, updated);

    assert!(wikitext.contains("検出: 2,500件（うち1件を表示）"));
}

#[test]
fn describes_redirect_state() {
    let finding = finding(PageState::Redirect("電磁気学".to_string()));
    assert_eq!(
        describe_state(&finding),
        "[[アンペールの法則 (曖昧さ回避)]]は[[電磁気学]]へのリダイレクト"
    );
}

#[test]
fn sanitizes_raw_calls() {
    assert_eq!(
        sanitize_raw("{{仮リンク|foo\n|en|Foo}}"),
        "{{仮リンク|foo |en|Foo}}"
    );
    assert!(sanitize_raw("a</nowiki>b").contains("</ nowiki>"));

    let long = format!("{{{{仮リンク|{}|en|Foo}}}}", "あ".repeat(RAW_LIMIT));
    let sanitized = sanitize_raw(&long);
    assert_eq!(sanitized.chars().count(), RAW_LIMIT + 1);
    assert!(sanitized.ends_with('…'));
}

#[test]
fn formats_progress_with_estimate() {
    let elapsed: u64 = 42 * 60;
    let remaining = 297_792usize.saturating_sub(50_000) as f64;
    let left = elapsed as f64 * remaining / 50_000f64;
    let line = progress(50_000, 297_792, 1234, elapsed, left as u64);
    assert_eq!(
        line,
        "Scanned 50,000/297,792 articles (16%), 1,234 findings, 42m00s elapsed, ~3h28m left"
    );
}

#[test]
fn formats_progress_before_any_article() {
    let line = progress(0, 100, 0, 5, 0);
    assert!(line.contains("(0%)"));
    assert!(line.contains("~unknown left"));
}

#[test]
fn warns_only_when_requests_are_slow() {
    let fast = stats(10, 20, 5, 10);
    assert!(warning(fast).is_none());

    let throttled = stats(400, 20, 5, 10);
    let warning = warning(throttled).unwrap();
    assert!(warning.starts_with("jawiki: 20.0s per request"));
}

#[test]
fn warns_about_the_slower_api() {
    let stats = stats(80, 20, 180, 10);
    let warning = warning(stats).unwrap();
    assert!(warning.starts_with("Wikidata: 18.0s per request"));
}

#[test]
fn ignores_rounds_without_requests() {
    let idle = stats(0, 0, 0, 0);
    assert!(warning(idle).is_none());
}

#[test]
fn page_limit_defaults_and_parses() {
    assert_eq!(page_limit_from(None), usize::MAX);
    assert_eq!(page_limit_from(Some("25".to_string())), 25);
    assert_eq!(page_limit_from(Some("many".to_string())), usize::MAX);
}

#[test]
fn deduplicates_preserving_order() {
    let values = strings(&["b", "a", "b", "c"]);
    assert_eq!(unique(&values), vec!["b", "a", "c"]);
}

#[test]
fn deduplicating_twice_changes_nothing() {
    let once = unique(&strings(&["x", "", "x", "", "y"]));
    assert_eq!(once, ["x", "", "y"]);
    assert_eq!(unique(&once), once);
    assert!(unique(&[]).is_empty());
}

#[test]
fn describes_missing_state() {
    assert_eq!(
        describe_state(&finding(PageState::Missing)),
        "[[アンペールの法則 (曖昧さ回避)]]は未作成"
    );
}

#[test]
fn renders_one_finding() {
    let one = Finding {
        article: "記事".to_string(),
        ja_title: "甲".to_string(),
        linked: "乙".to_string(),
        raw: "{{ill|甲|en|A}}".to_string(),
        state: PageState::Redirect("丙".to_string()),
        target: LangTarget {
            lang: "en".to_string(),
            title: "A".to_string(),
        },
    };
    assert_eq!(
        render_report(&[one], 1, 2, "2026-01-02 03:04"),
        "仮リンクのリンク先記事のウィキデータ項目に、日本語版記事がリンクされているものの一覧です。第1引数の日本語版記事名が存在しないか、リダイレクトになっているものを対象としています。\n\
         \n\
         最終更新: 2026-01-02 03:04 (UTC)\n\
         \n\
         走査した記事: 2件 / 検出: 1件\n\
         \n\
         {| class=\"wikitable sortable\"\n\
         |-\n\
         ! 記事\n\
         ! 仮リンクの記述\n\
         ! 第1引数の状態\n\
         ! リンク先\n\
         ! 日本語版記事\n\
         |-\n\
         | [[記事]]\n\
         | <code><nowiki>{{ill|甲|en|A}}</nowiki></code>\n\
         | [[甲]]は[[丙]]へのリダイレクト\n\
         | [[:en:A|en:A]]\n\
         | [[乙]]\n\
         |}\n"
    );
}

#[test]
fn sanitized_calls_hold_no_end_tag() {
    for raw in [
        "</nowiki></nowiki>",
        "</now</nowiki>iki>",
        "\u{0}\u{1f}\u{7f}\u{9f}",
        "<</nowiki>>",
    ] {
        let safe = sanitize_raw(raw);
        assert!(!safe.contains("</nowiki>"));
        assert!(!safe.chars().any(char::is_control));
    }
    assert_eq!(sanitize_raw("a</nowiki>b"), "a</ nowiki>b");
    let exact = "x".repeat(RAW_LIMIT);
    assert_eq!(sanitize_raw(&exact), exact);
}

#[test]
fn control_characters_become_spaces() {
    for code in 0..0x300u32 {
        if let Some(c) = char::from_u32(code) {
            let expected = if c.is_control() { ' ' } else { c };
            assert_eq!(sanitize_raw(&c.to_string()), expected.to_string());
        }
    }
}

#[test]
fn progress_is_complete_without_articles() {
    assert_eq!(
        progress(0, 0, 0, 61, 0),
        "Scanned 0/0 articles (100%), 0 findings, 1m01s elapsed, ~unknown left"
    );
    assert_eq!(
        progress(3, 3, 1, 5, 0),
        "Scanned 3/3 articles (100%), 1 findings, 5s elapsed, ~0s left"
    );
}

#[test]
fn logs_every_five_minutes() {
    assert!(!progress_due(299));
    assert!(progress_due(300));
    assert!(warning_due(None));
    assert!(!warning_due(Some(299)));
    assert!(warning_due(Some(300)));
}

#[test]
fn three_seconds_per_request_are_slow() {
    assert_eq!(SLOW_PACE, 3.0f32.to_bits());
    assert_eq!(stats(60, 20, 0, 0).0.slow_api(), Some(Api::Jawiki));
    assert_eq!(stats(59, 20, 0, 0).0.slow_api(), None);
    assert_eq!(stats(60, 20, 60, 20).0.slow_api(), Some(Api::Wikidata));
    assert_eq!(stats(80, 20, 60, 20).0.slow_api(), Some(Api::Jawiki));
    assert_eq!(
        warning(stats(0, 0, 83, 10)).unwrap(),
        "Wikidata: 8.3s per request, far above a normal round trip. The API is \
         rate-limiting the bot, so this scan will take much longer than usual."
    );
}

#[test]
fn batches_by_right() {
    assert_eq!(info_batch(true), 500);
    assert_eq!(info_batch(false), 50);
}

#[test]
fn lists_articles_page_by_page() {
    let item = |id: u64, title: &str| {
        object(vec![("pageid", Json::Unsigned(id)), ("title", text(title))])
    };
    let resp = |items: Vec<Json>, resume: Option<&str>| {
        let mut members = vec![(
            "query",
            object(vec![("embeddedin", Json::Array(items))]),
        )];
        if let Some(value) = resume {
            members.push(("continue", object(vec![("eicontinue", text(value))])));
        }
        object(members)
    };
    let mut articles = Articles::new(3);
    assert!(articles.is_open());
    let page = resp(vec![item(1, "a"), object(vec![]), item(2, "b")], Some("0|9"));
    assert_eq!(articles.add_page(&page), Some("0|9".to_string()));
    assert!(articles.is_open());
    let page = resp(vec![item(3, "c"), item(4, "d")], Some("0|99"));
    assert_eq!(articles.add_page(&page), None);
    let listed = vec![
        (1, "a".to_string()),
        (2, "b".to_string()),
        (3, "c".to_string()),
    ];
    assert_eq!(articles.articles, listed);
    assert!(!articles.is_open());

    let mut articles = Articles::new(usize::MAX);
    assert_eq!(articles.add_page(&resp(vec![item(1, "a")], None)), None);
    assert_eq!(articles.articles.len(), 1);

    let mut articles = Articles::new(0);
    assert!(!articles.is_open());
    let page = resp(vec![item(1, "a"), item(2, "b")], Some("x"));
    assert_eq!(articles.add_page(&page), None);
    assert!(articles.articles.is_empty());
}

#[test]
fn steps_through_a_scan() {
    assert_eq!(next_step(1200, 0, false, false), ScanStep::Round(0, 500));
    assert_eq!(next_step(1200, 500, true, false), ScanStep::Round(500, 1000));
    assert_eq!(next_step(1200, 1000, false, false), ScanStep::Round(1000, 1200));
    assert_eq!(next_step(1200, 1200, false, false), ScanStep::Save);
    assert_eq!(next_step(1200, 1200, true, false), ScanStep::Print);
    assert_eq!(next_step(0, 0, false, false), ScanStep::Save);
    for at in [0, 500, 1199] {
        assert_eq!(next_step(1200, at, false, true), ScanStep::Stop);
        assert_eq!(next_step(1200, at, true, true), ScanStep::Stop);
    }
    assert_eq!(next_step(1200, 1200, false, true), ScanStep::Save);
    assert_eq!(next_step(1200, 1200, true, true), ScanStep::Print);
    assert_eq!(next_step(0, 0, false, true), ScanStep::Stop);
    assert_eq!(next_step(0, 0, true, true), ScanStep::Stop);
}

#[test]
fn asks_for_articles() {
    let mut expected = vec![
        ("action", "query".to_string()),
        ("list", "embeddedin".to_string()),
        ("eititle", "Template:仮リンク".to_string()),
        ("einamespace", "0".to_string()),
        ("eifilterredir", "nonredirects".to_string()),
        ("eilimit", "max".to_string()),
        ("formatversion", "2".to_string()),
    ];
    assert_eq!(articles_request(None), expected);
    expected.push(("eicontinue", "0|9".to_string()));
    assert_eq!(articles_request(Some("0|9".to_string())), expected);
}

#[test]
fn reads_calls_from_pages() {
    let page = |title: Option<&str>, content: &str| {
        let mut members = vec![(
            "revisions",
            Json::Array(vec![object(vec![(
                "slots",
                object(vec![("main", object(vec![("content", text(content))]))]),
            )])]),
        )];
        if let Some(title) = title {
            members.push(("title", text(title)));
        }
        object(members)
    };
    let resp = object(vec![(
        "query",
        object(vec![(
            "pages",
            Json::Array(vec![
                page(Some("甲"), "{{ill|a|en|A}}{{ill|b|en|B}}"),
                page(None, "{{ill|x|en|X}}"),
                page(Some("乙"), "nothing"),
                page(Some("丙"), "{{ill|c|en|C}}"),
            ]),
        )]),
    )]);
    let found: Vec<(String, String)> = fetched_calls(&resp)
        .into_iter()
        .map(|(article, call)| (article, call.ja_title))
        .collect();
    assert_eq!(
        found,
        [("甲", "a"), ("甲", "b"), ("丙", "c")]
            .map(|(article, title)| (article.to_string(), title.to_string()))
    );
}

#[test]
fn resolves_a_round() {
    let wikidata = wikidata(&["enwiki", "dewiki"]);
    let mut caches = Caches::new();
    let round = calls(
        "記事",
        "{{ill|有る|en|Exists}}{{ill|無い|xx|?|en|missing_one|de|Eins}}\
         {{ill|転送|en|Redirected}}{{ill|別転送|wikidata|q5}}{{ill|無い|fr|Deux}}\
         {{ill|不明|en|Unknown}}",
    );
    let titles = titles_to_look_up(&round, &caches);
    assert_eq!(titles, ["有る", "無い", "転送", "別転送", "不明"]);

    let mut states = StateTable::new();
    states.insert("有る".to_string(), PageState::Exists);
    states.insert("無い".to_string(), PageState::Missing);
    states.insert("転送".to_string(), PageState::Redirect("先".to_string()));
    states.insert("別転送".to_string(), PageState::Redirect("先".to_string()));
    caches.record_states(states);
    assert_eq!(titles_to_look_up(&round, &caches), ["不明"]);

    let pending = pending_calls(&round, &caches);
    let open: Vec<&str> = pending.iter().map(|p| p.call.ja_title.as_str()).collect();
    assert_eq!(open, ["無い", "転送", "別転送", "無い"]);

    let (keys, unknown) = wanted_sitelinks(&wikidata, &mut caches, &pending);
    assert_eq!(unknown, ["xx", "fr"]);
    let (_, again) = wanted_sitelinks(&wikidata, &mut caches, &pending);
    assert!(again.is_empty());
    let groups = group_by_site(&keys);
    assert_eq!(
        groups,
        vec![
            ("enwiki".to_string(), strings(&["Missing one", "Redirected"])),
            ("dewiki".to_string(), strings(&["Eins"])),
            ("wikidata".to_string(), strings(&["Q5"])),
        ]
    );

    caches.record_links(
        "enwiki",
        &groups[0].1,
        &table(&[("Redirected", "先")]),
    );
    caches.record_links("dewiki", &groups[1].1, &table(&[("Eins", "一")]));
    caches.record_links("wikidata", &groups[2].1, &table(&[("Q5", "五")]));
    let (keys, _) = wanted_sitelinks(&wikidata, &mut caches, &pending);
    assert!(keys.is_empty());

    let found = findings(&wikidata, &caches, &pending);
    let reported: Vec<(&str, &str, &str)> = found
        .iter()
        .map(|f| (f.ja_title.as_str(), f.target.lang.as_str(), f.linked.as_str()))
        .collect();
    assert_eq!(
        reported,
        [("無い", "de", "一"), ("別転送", "wikidata", "五")]
    );
    assert_eq!(found[0].state, PageState::Missing);
    assert_eq!(found[0].article, "記事");
    assert_eq!(
        found[0].raw,
        "{{ill|無い|xx|?|en|missing_one|de|Eins}}"
    );
}

#[test]
fn warns_once_of_an_unknown_language() {
    let wikidata = wikidata(&["enwiki"]);
    let mut caches = Caches::new();
    assert_eq!(site_for(&wikidata, &mut caches, "xx"), (None, true));
    assert_eq!(site_for(&wikidata, &mut caches, "xx"), (None, false));
    assert_eq!(
        site_for(&wikidata, &mut caches, "EN"),
        (Some("enwiki".to_string()), false)
    );
    assert_eq!(
        site_for(&wikidata, &mut caches, "WikiData"),
        (Some("wikidata".to_string()), false)
    );
}

#[test]
fn matches_the_first_target_worth_reporting() {
    let wikidata = wikidata(&["enwiki", "dewiki"]);
    let mut caches = Caches::new();
    caches.record_links("enwiki", &strings(&["A"]), &table(&[("A", "甲")]));
    caches.record_links("dewiki", &strings(&["B"]), &table(&[("B", "乙")]));
    let call = &calls("x", "{{ill|y|en|A|de|B}}")[0].1;
    let matched = |state: PageState| {
        match_target(&wikidata, &caches, call, &state).map(|(target, linked)| (target.lang, linked))
    };
    assert_eq!(
        matched(PageState::Missing),
        Some(("en".to_string(), "甲".to_string()))
    );
    assert_eq!(
        matched(PageState::Redirect("甲".to_string())),
        Some(("de".to_string(), "乙".to_string()))
    );
}

#[test]
fn asks_wikidata_by_id_or_by_site() {
    let titles = strings(&["Q1", "Q2"]);
    assert_eq!(
        sitelinks_request("wikidata", &titles)[1],
        ("ids", "Q1|Q2".to_string())
    );
    assert_eq!(
        sitelinks_request("enwiki", &titles)[1],
        ("sites", "enwiki".to_string())
    );

    let resp = object(vec![(
        "entities",
        object(vec![(
            "q1",
            object(vec![(
                "sitelinks",
                object(vec![
                    ("enwiki", object(vec![("title", text("universe"))])),
                    ("jawiki", object(vec![("title", text("宇宙"))])),
                ]),
            )]),
        )]),
    )]);
    let by_id = found_sitelinks("wikidata", &resp);
    assert_eq!(by_id.get("Q1").map(String::as_str), Some("宇宙"));
    let by_title = found_sitelinks("enwiki", &resp);
    assert_eq!(by_title.get("Universe").map(String::as_str), Some("宇宙"));
}

#[test]
fn remembers_lookups_apart() {
    let mut caches = Caches::new();
    caches.record_links("a", &strings(&["bc", "d"]), &table(&[("bc", "x")]));
    assert_eq!(
        caches.sitelinks.get("a", "bc"),
        Some(&Some("x".to_string()))
    );
    assert_eq!(caches.sitelinks.get("a", "d"), Some(&None));
    assert_eq!(caches.sitelinks.get("ab", "c"), None);
    assert!(!caches.sitelinks.contains_key("d", "a"));
}

#[test]
fn reports_a_thousand_findings_at_most() {
    let updated = Moment::from_rfc3339("2026-09-16T12:34:56Z").unwrap();
    let report = |n: usize| {
        let findings: Vec<Finding> = (0..n).map(|_| finding(PageState::Missing)).collect();
        build_report(&findings, n, 5000, updated)
    };
    let rows = |text: &str| text.matches("| [[アンパサンド]]\n").count();
    let full = report(1000);
    assert_eq!(rows(&full), 1000);
    assert!(full.contains("検出: 1,000件\n"));
    let cut = report(1001);
    assert_eq!(rows(&cut), 1000);
    assert!(cut.contains("検出: 1,001件（うち1,000件を表示）"));
}

#[test]
fn lists_the_first_findings() {
    let many = |n: usize| (0..n).map(|_| finding(PageState::Missing)).collect::<Vec<_>>();
    let mut scan = Scan::new();
    scan.add_round(many(600), 500);
    scan.add_round(many(600), 500);
    scan.add_round(many(5), 7);
    assert_eq!(scan.findings.len(), REPORT_LIMIT);
    assert_eq!(scan.total, 1205);
    assert_eq!(scan.scanned, 1007);
}
