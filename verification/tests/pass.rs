use wikipedia_sz_bot::api::Failure;
use wikipedia_sz_bot::json::Json;
use wikipedia_sz_bot::moment::Moment;
use wikipedia_sz_bot::tasks::recentchanges::pass::Pass;
use wikipedia_sz_bot::tasks::recentchanges::{Edit, Monitor};

fn text(value: &str) -> Json {
    Json::Text(value.to_string())
}

fn object(members: Vec<(&str, Json)>) -> Json {
    Json::Object(
        members
            .into_iter()
            .map(|(key, value)| (key.to_string(), value))
            .collect(),
    )
}

fn at(time: &str) -> Moment {
    Moment::from_rfc3339(time).unwrap()
}

fn change(revid: u64, old_revid: Option<u64>, user: &str, time: &str) -> Json {
    let mut members = vec![
        ("revid", Json::Unsigned(revid)),
        ("title", text("ページ")),
        ("user", text(user)),
        ("timestamp", text(time)),
    ];
    if let Some(old_revid) = old_revid {
        members.push(("old_revid", Json::Unsigned(old_revid)));
    }
    object(members)
}

fn changes(items: Vec<Json>) -> Json {
    object(vec![(
        "query",
        object(vec![("recentchanges", Json::Array(items))]),
    )])
}

fn users(counts: &[(&str, u64)]) -> Json {
    let list = counts
        .iter()
        .map(|(name, count)| {
            object(vec![
                ("name", text(name)),
                ("editcount", Json::Unsigned(*count)),
            ])
        })
        .collect();
    object(vec![("query", object(vec![("users", Json::Array(list))]))])
}

fn diff(line: &str) -> Json {
    let body = format!("<td class=\"diff-addedline\"><div>{line}</div></td>");
    object(vec![("compare", object(vec![("body", text(&body))]))])
}

fn revision(content: &str) -> Json {
    object(vec![(
        "query",
        object(vec![(
            "pages",
            Json::Array(vec![object(vec![(
                "revisions",
                Json::Array(vec![object(vec![(
                    "slots",
                    object(vec![("main", object(vec![("content", text(content))]))]),
                )])]),
            )])]),
        )]),
    )])
}

fn value(pass: &Pass, name: &str) -> Option<String> {
    let params = pass.request()?;
    params
        .into_iter()
        .find(|(key, _)| *key == name)
        .map(|(_, value)| value)
}

fn ended(pass: Pass) -> Vec<Edit> {
    assert!(pass.request().is_none());
    match pass {
        Pass::Ended { matching } => matching,
        _ => panic!("the pass has not ended"),
    }
}

#[test]
fn passes_over_recent_changes() {
    let now = at("2026-01-02T03:00:00Z");
    let mut monitor = Monitor::new(now);
    let mut pass = Pass::start(&monitor);
    assert_eq!(
        value(&pass, "rcstart").as_deref(),
        Some("2026-01-02T01:00:00Z")
    );
    let resp = changes(vec![
        change(11, Some(10), "A", "2026-01-02T02:00:00Z"),
        change(12, Some(0), "B", "2026-01-02T02:10:00Z"),
        change(13, None, "A", "2026-01-02T02:20:00Z"),
        change(14, Some(9), "C", "2026-01-02T02:30:00Z"),
        change(15, Some(8), "A", "2026-01-02T02:40:00Z"),
        change(16, Some(7), "A", "2026-01-02T02:50:00Z"),
    ]);
    pass = pass.answer(&mut monitor, Ok(resp), now);
    assert_eq!(monitor.since, at("2026-01-02T02:50:00Z"));
    assert_eq!(value(&pass, "ususers").as_deref(), Some("A|C|B"));
    let resp = users(&[("A", 3), ("B", 100), ("C", 101)]);
    pass = pass.answer(&mut monitor, Ok(resp), now);

    assert_eq!(value(&pass, "torev").as_deref(), Some("16"));
    pass = pass.answer(&mut monitor, Ok(diff("nothing")), now);
    assert_eq!(value(&pass, "torev").as_deref(), Some("15"));
    pass = pass.answer(&mut monitor, Err(Failure::Http(None)), now);
    assert_eq!(value(&pass, "revids").as_deref(), Some("12"));
    pass = pass.answer(&mut monitor, Ok(revision("?utm_source=chatgpt.com")), now);
    assert_eq!(value(&pass, "fromrev").as_deref(), Some("10"));
    assert_eq!(value(&pass, "torev").as_deref(), Some("11"));
    pass = pass.answer(&mut monitor, Ok(diff("?utm_source=chatgpt.com")), now);

    let ids: Vec<u64> = ended(pass).iter().map(|edit| edit.revid).collect();
    assert_eq!(ids, [12, 11]);
    assert!(monitor.matching.is_empty());
}

#[test]
fn asks_for_at_most_fifty_users() {
    let now = at("2026-01-02T03:00:00Z");
    let mut monitor = Monitor::new(now);
    let items = (0..60)
        .map(|n| change(n, Some(1), &format!("user{n}"), "2026-01-02T02:00:00Z"))
        .collect();
    let mut pass = Pass::start(&monitor).answer(&mut monitor, Ok(changes(items)), now);
    assert_eq!(value(&pass, "ususers").unwrap().split('|').count(), 50);
    let resp = users(&[("user3", 1), ("user49", 1), ("user55", 1)]);
    pass = pass.answer(&mut monitor, Ok(resp), now);
    assert_eq!(value(&pass, "torev").as_deref(), Some("49"));
    pass = pass.answer(&mut monitor, Ok(diff("x")), now);
    assert_eq!(value(&pass, "torev").as_deref(), Some("3"));
    pass = pass.answer(&mut monitor, Ok(diff("x")), now);
    assert!(ended(pass).is_empty());
}

#[test]
fn long_lists_are_read_page_by_page() {
    let mut monitor = Monitor::new(at("2026-01-02T03:00:00Z"));
    let now = at("2026-01-02T03:00:00Z");
    let items = |from: u64| {
        (from..60)
            .map(|n| change(n, None, "A", &format!("2026-01-02T02:{n:02}:00Z")))
            .collect()
    };
    let pass = Pass::start(&monitor).answer(&mut monitor, Ok(changes(items(0))), now);
    assert!(matches!(pass, Pass::Users { edits, .. } if edits.len() == 50));
    assert_eq!(monitor.since, at("2026-01-02T02:49:00Z"));
    let pass = Pass::start(&monitor).answer(&mut monitor, Ok(changes(items(49))), now);
    assert!(matches!(pass, Pass::Users { edits, .. } if edits.len() == 11));
    assert_eq!(monitor.since, at("2026-01-02T02:59:00Z"));
}

#[test]
fn failures_end_a_pass_without_matches() {
    let now = at("2026-01-02T03:00:00Z");
    let mut monitor = Monitor::new(now);
    let failed = Pass::start(&monitor).answer(&mut monitor, Err(Failure::Http(None)), now);
    assert!(ended(failed).is_empty());
    assert_eq!(monitor.since, at("2026-01-02T01:00:00Z"));

    let resp = changes(vec![change(11, Some(10), "A", "2026-01-02T02:00:00Z")]);
    let asking = Pass::start(&monitor).answer(&mut monitor, Ok(resp), now);
    let failed = asking.answer(&mut monitor, Err(Failure::Http(Some(500))), now);
    assert!(ended(failed).is_empty());
    assert_eq!(monitor.since, at("2026-01-02T02:00:00Z"));
}

#[test]
fn empty_polls_end_a_pass() {
    let now = at("2026-01-02T03:00:00Z");
    let mut monitor = Monitor::new(now);
    let pass = Pass::start(&monitor).answer(&mut monitor, Ok(Json::Null), now);
    assert!(ended(pass).is_empty());
    assert_eq!(monitor.since, at("2026-01-02T01:00:00Z"));
}
