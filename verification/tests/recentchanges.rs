use wikipedia_sz_bot::json::Json;
use wikipedia_sz_bot::moment::Moment;
use wikipedia_sz_bot::tasks::recentchanges::{
    add_newcomers, added_line_has_utm, build_report, check_for, diff_has_utm, diff_request,
    edit_counts_request, filter_by_edit_count, initial_revision_has_utm, initial_revision_request,
    parse_timestamp, read_edit, recent_changes, recent_changes_request,
    render_report, users_to_look_up, Check, Edit, Monitor, Outcome,
};
use wikipedia_sz_bot::titles::TitleSet;

fn text(value: &str) -> Json {
    Json::Text(value.to_string())
}

fn object(members: Vec<(&str, Json)>) -> Json {
    Json::Object(
        members
            .into_iter()
            .map(|(key, value)| (key.to_string(), value))
            .collect(),
    )
}

fn at(time: &str) -> Moment {
    Moment::from_rfc3339(time).unwrap()
}

fn edit(revid: u64, user: Option<&str>, time: &str) -> Edit {
    Edit {
        title: format!("ページ{revid}"),
        user: user.map(str::to_string),
        revid,
        old_revid: Some(1),
        timestamp: at(time),
    }
}

#[test]
fn detects_utm_in_added_lines() {
    let body = r#"<td class="diff-addedline diff-side-added"><div>[https://example.com/?utm_source=chatgpt.com foo]</div></td>"#;
    assert!(added_line_has_utm(body));
}

#[test]
fn ignores_utm_in_context_lines() {
    let body = r#"<td class="diff-context diff-side-added"><div>[https://example.com/?utm_source=chatgpt.com foo]</div></td>"#;
    assert!(!added_line_has_utm(body));
}

#[test]
fn ignores_non_utm_additions() {
    let body = r#"<td class="diff-addedline diff-side-added"><div>plain text</div></td>"#;
    assert!(!added_line_has_utm(body));
}

#[test]
fn ignores_utm_without_chatgpt() {
    let body = r#"<td class="diff-addedline diff-side-added"><div>[https://example.com/?utm_source=foo bar]</div></td>"#;
    assert!(!added_line_has_utm(body));
}

#[test]
fn looks_at_every_added_line() {
    let plain = r#"<td class="diff-addedline"><div>x</div></td>"#;
    let utm = r#"<td class="diff-addedline"><div>UTM_Source=ChatGPT.com</div></td>"#;
    let behind = r#"<td class="diff-addedline"><div>x</div>utm_source=chatgpt.com</td>"#;
    assert!(added_line_has_utm(&format!("{plain}{utm}{plain}")));
    assert!(!added_line_has_utm(&format!("{plain}{behind}")));
    assert!(!added_line_has_utm(""));
}

#[test]
fn reads_recent_changes() {
    let now = at("2026-01-01T00:00:00Z");
    let resp = object(vec![(
        "query",
        object(vec![(
            "recentchanges",
            Json::Array(vec![
                object(vec![
                    ("revid", Json::Unsigned(7)),
                    ("old_revid", Json::Unsigned(0)),
                    ("title", text("甲")),
                    ("user", text("A")),
                    ("timestamp", text("2026-01-02T03:04:05Z")),
                ]),
                object(vec![("title", text("乙"))]),
                object(vec![("revid", Json::Unsigned(8))]),
                object(vec![("revid", Json::Unsigned(9)), ("title", text("丙"))]),
            ]),
        )]),
    )]);
    assert_eq!(
        recent_changes(&resp, now),
        vec![
            Edit {
                title: "甲".to_string(),
                user: Some("A".to_string()),
                revid: 7,
                old_revid: Some(0),
                timestamp: at("2026-01-02T03:04:05Z"),
            },
            Edit {
                title: "丙".to_string(),
                user: None,
                revid: 9,
                old_revid: None,
                timestamp: now,
            },
        ]
    );
}

#[test]
fn recent_changes_come_newest_first() {
    let now = at("2026-01-01T00:00:00Z");
    let change = |revid: u64, time: String| {
        object(vec![
            ("revid", Json::Unsigned(revid)),
            ("title", text("甲")),
            ("timestamp", text(&time)),
        ])
    };
    let resp = |items: Vec<Json>| {
        object(vec![(
            "query",
            object(vec![("recentchanges", Json::Array(items))]),
        )])
    };
    let ids = |items: Vec<Json>| -> Vec<u64> {
        recent_changes(&resp(items), now)
            .iter()
            .map(|edit| edit.revid)
            .collect()
    };
    let times = ["02:00", "02:30", "02:10", "02:30", "01:00"];
    let items = times
        .iter()
        .zip(1..)
        .map(|(time, revid)| change(revid, format!("2026-01-02T{time}:00Z")))
        .collect();
    assert_eq!(ids(items), [4, 2, 3, 1, 5]);

    let many = (0..60)
        .map(|n| change(n, format!("2026-01-02T02:{n:02}:00Z")))
        .collect();
    assert_eq!(ids(many), (0..50).rev().collect::<Vec<u64>>());
}

#[test]
fn falls_back_to_the_present() {
    let now = at("2026-01-01T00:00:00Z");
    assert_eq!(parse_timestamp(None, now), now);
    assert_eq!(parse_timestamp(Some("yesterday"), now), now);
    assert_eq!(
        parse_timestamp(Some("2026-01-02T03:04:05Z"), now),
        at("2026-01-02T03:04:05Z")
    );
    assert_eq!(
        parse_timestamp(Some("2026-01-02T12:04:05+09:00"), now),
        at("2026-01-02T03:04:05Z")
    );
}

#[test]
fn asks_for_recent_changes() {
    assert_eq!(
        recent_changes_request(at("2026-01-02T03:04:05Z")),
        vec![
            ("action", "query".to_string()),
            ("list", "recentchanges".to_string()),
            ("rcprop", "ids|title|user|timestamp".to_string()),
            ("rclimit", "50".to_string()),
            ("rcdir", "newer".to_string()),
            ("rcstart", "2026-01-02T03:04:05Z".to_string()),
        ]
    );
}

#[test]
fn asks_about_users_and_revisions() {
    assert_eq!(
        edit_counts_request(&["A".to_string(), "B".to_string()]),
        vec![
            ("action", "query".to_string()),
            ("list", "users".to_string()),
            ("ususers", "A|B".to_string()),
            ("usprop", "editcount".to_string()),
        ]
    );
    assert_eq!(
        initial_revision_request(7),
        vec![
            ("action", "query".to_string()),
            ("prop", "revisions".to_string()),
            ("rvprop", "content".to_string()),
            ("rvslots", "main".to_string()),
            ("revids", "7".to_string()),
            ("formatversion", "2".to_string()),
        ]
    );
    assert_eq!(
        diff_request(6, 7),
        vec![
            ("action", "compare".to_string()),
            ("fromrev", "6".to_string()),
            ("torev", "7".to_string()),
            ("formatversion", "2".to_string()),
        ]
    );
}

#[test]
fn keeps_edits_by_newcomers() {
    let time = "2026-01-02T03:04:05Z";
    let edits = vec![
        edit(1, Some("A"), time),
        edit(2, None, time),
        edit(3, Some("B"), time),
        edit(4, Some("A"), time),
        edit(5, Some("C"), time),
    ];
    assert_eq!(users_to_look_up(&edits), ["A", "B", "C"]);

    let user = |name: &str, count: Option<u64>| {
        let mut members = vec![("name", text(name))];
        if let Some(count) = count {
            members.push(("editcount", Json::Unsigned(count)));
        }
        object(members)
    };
    let resp = object(vec![(
        "query",
        object(vec![(
            "users",
            Json::Array(vec![
                user("A", Some(100)),
                user("B", Some(101)),
                user("C", None),
            ]),
        )]),
    )]);
    let mut newcomers = TitleSet::new();
    add_newcomers(&mut newcomers, &resp);
    let kept = filter_by_edit_count(&edits, &newcomers);
    assert_eq!(
        kept,
        vec![edit(1, Some("A"), time), edit(4, Some("A"), time)]
    );
}

#[test]
fn decides_how_to_check_an_edit() {
    let mut one = edit(7, None, "2026-01-02T03:04:05Z");
    one.old_revid = Some(6);
    assert_eq!(check_for(&one), Check::Diff(6, 7));
    one.old_revid = Some(0);
    assert_eq!(check_for(&one), Check::Revision(7));
    one.old_revid = None;
    assert_eq!(check_for(&one), Check::Nothing);
}

#[test]
fn checks_responses() {
    let page = |content: &str| {
        object(vec![(
            "query",
            object(vec![(
                "pages",
                Json::Array(vec![object(vec![(
                    "revisions",
                    Json::Array(vec![object(vec![(
                        "slots",
                        object(vec![("main", object(vec![("content", text(content))]))]),
                    )])]),
                )])]),
            )]),
        )])
    };
    assert!(initial_revision_has_utm(&page("x?UTM_SOURCE=chatgpt.com y")));
    assert!(!initial_revision_has_utm(&page("x?utm_source=other")));
    assert!(!initial_revision_has_utm(&Json::Null));

    let diff = |body: &str| object(vec![("compare", object(vec![("body", text(body))]))]);
    assert!(diff_has_utm(&diff(
        "<td class=\"diff-addedline\"><div>utm_source=chatgpt.com</div>"
    )));
    assert!(!diff_has_utm(&diff("<div>utm_source=chatgpt.com</div>")));
    assert!(!diff_has_utm(&Json::Null));
}

#[test]
fn monitors_from_two_hours_back() {
    let monitor = Monitor::new(at("2026-01-02T03:04:05Z"));
    assert_eq!(monitor.since, at("2026-01-02T01:04:05Z"));
    assert_eq!(monitor.last_save, at("2026-01-02T01:04:05Z"));
    assert!(monitor.matching.is_empty());
}

#[test]
fn saves_on_the_first_pass_and_every_two_hours() {
    let mut monitor = Monitor::new(at("2026-01-02T03:00:00Z"));
    let first = at("2026-01-02T03:00:10Z");
    assert_eq!(monitor.end_pass(&[], false, first), Outcome::Save);
    assert_eq!(monitor.last_save, first);
    assert_eq!(
        monitor.end_pass(&[], false, at("2026-01-02T05:00:09Z")),
        Outcome::Wait
    );
    assert_eq!(
        monitor.end_pass(&[], false, at("2026-01-02T05:00:10Z")),
        Outcome::Save
    );
}

#[test]
fn matching_edits_wait_for_the_next_save() {
    let mut monitor = Monitor::new(at("2026-01-02T03:00:00Z"));
    monitor.end_pass(&[], false, at("2026-01-02T03:00:10Z"));
    let found = [edit(5, Some("A"), "2026-01-02T03:00:20Z")];
    assert_eq!(
        monitor.end_pass(&found, false, at("2026-01-02T03:00:40Z")),
        Outcome::Wait
    );
    assert_eq!(
        monitor.end_pass(&found, false, at("2026-01-02T05:00:10Z")),
        Outcome::Save
    );
    assert_eq!(monitor.matching.len(), 1);
}

#[test]
fn saves_lie_two_hours_apart() {
    let mut monitor = Monitor::new(at("2026-01-02T00:00:00Z"));
    let mut saves: Vec<i64> = Vec::new();
    let start = at("2026-01-02T00:00:00Z").secs;
    for minute in 0..600 {
        let now = Moment::new(start + 60 * minute, 0).unwrap();
        let found = [edit(minute as u64, Some("A"), "2026-01-03T00:00:00Z")];
        if monitor.end_pass(&found, false, now) == Outcome::Save {
            saves.push(minute);
        }
    }
    assert_eq!(saves, [0, 120, 240, 360, 480]);
}

#[test]
fn prints_in_a_dry_run() {
    let mut monitor = Monitor::new(at("2026-01-02T03:00:00Z"));
    assert_eq!(
        monitor.end_pass(&[], true, at("2026-01-02T03:00:10Z")),
        Outcome::Print
    );
    assert_eq!(monitor.last_save, at("2026-01-02T01:00:00Z"));
}

#[test]
fn polls_on_from_the_newest_edit() {
    let mut monitor = Monitor::new(at("2026-01-02T03:00:00Z"));
    monitor.polled(&[]);
    assert_eq!(monitor.since, at("2026-01-02T01:00:00Z"));
    monitor.polled(&[
        edit(2, None, "2026-01-02T02:30:00Z"),
        edit(1, None, "2026-01-02T02:00:00Z"),
    ]);
    assert_eq!(monitor.since, at("2026-01-02T02:30:00Z"));
}

#[test]
fn keeps_each_revision_once() {
    let time = "2026-01-02T02:00:00Z";
    let mut monitor = Monitor::new(at("2026-01-02T03:00:00Z"));
    monitor.add_matching(&[edit(1, Some("A"), time), edit(1, Some("B"), time)]);
    monitor.add_matching(&[edit(2, Some("A"), time), edit(1, Some("A"), time)]);
    let ids: Vec<u64> = monitor.matching.iter().map(|e| e.revid).collect();
    assert_eq!(ids, [1, 2]);
    assert_eq!(monitor.matching[0].user.as_deref(), Some("A"));
}

#[test]
fn renders_matching_edits() {
    let edits = [
        edit(7, Some("A"), "2026-01-02T03:04:05Z"),
        edit(8, None, "2026-01-02T23:59:59Z"),
    ];
    let expected = "検知した編集です。\n\
         \n\
         最終更新: 2026-01-03 00:00 (UTC)\n\
         \n\
         {| class=\"wikitable sortable\"\n\
         |-\n\
         ! ページ\n\
         ! 利用者\n\
         ! 差分\n\
         |-\n\
         | [[:ページ7]]\n\
         | A\n\
         | 03:04 [[Special:Diff/7|差分]]\n\
         |-\n\
         | [[:ページ8]]\n\
         | (匿名)\n\
         | 23:59 [[Special:Diff/8|差分]]\n\
         |}\n";
    assert_eq!(build_report(&edits, at("2026-01-03T00:00:30Z")), expected);
    let clocks = ["03:04".to_string(), "23:59".to_string()];
    assert_eq!(render_report(&edits, &clocks, "2026-01-03 00:00"), expected);
}

#[test]
fn reads_single_items() {
    let time = at("2026-01-02T03:04:05Z");
    let item = object(vec![
        ("revid", Json::Unsigned(7)),
        ("old_revid", Json::Unsigned(6)),
        ("title", text("甲")),
        ("user", text("A")),
    ]);
    let expected = Edit {
        title: "甲".to_string(),
        user: Some("A".to_string()),
        revid: 7,
        old_revid: Some(6),
        timestamp: time,
    };
    assert_eq!(read_edit(&item, time), Some(expected));
    assert_eq!(read_edit(&Json::Null, time), None);
}
