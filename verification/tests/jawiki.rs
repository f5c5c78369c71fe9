use wikipedia_sz_bot::json::Json;
use wikipedia_sz_bot::tasks::ill::jawiki::{
    missing_titles, page_states, page_states_request, pairs, resolve, PageState, StateTable,
};
use wikipedia_sz_bot::titles::{TitleSet, TitleTable};

fn table(entries: &[(&str, &str)]) -> TitleTable {
    let mut table = TitleTable::new();
    for (from, to) in entries {
        table.insert(from.to_string(), to.to_string());
    }
    table
}

fn set(titles: &[&str]) -> TitleSet {
    let mut set = TitleSet::new();
    for title in titles {
        set.insert(title.to_string());
    }
    set
}

fn text(value: &str) -> Json {
    Json::Text(value.to_string())
}

fn object(members: Vec<(&str, Json)>) -> Json {
    Json::Object(
        members
            .into_iter()
            .map(|(key, value)| (key.to_string(), value))
            .collect(),
    )
}

#[test]
fn classifies_existing_title() {
    let state = resolve("Foo", &table(&[]), &TitleSet::new());
    assert_eq!(state, PageState::Exists);
}

#[test]
fn classifies_missing_title() {
    let missing = set(&["Foo"]);
    assert_eq!(resolve("Foo", &table(&[]), &missing), PageState::Missing);
}

#[test]
fn follows_redirect_chain() {
    let redirects = table(&[("Foo", "Bar"), ("Bar", "Baz")]);
    assert_eq!(
        resolve("Foo", &redirects, &TitleSet::new()),
        PageState::Redirect("Baz".to_string())
    );
}

#[test]
fn reports_broken_redirect_as_redirect() {
    let redirects = table(&[("Foo", "Bar")]);
    let missing = set(&["Bar"]);
    assert_eq!(
        resolve("Foo", &redirects, &missing),
        PageState::Redirect("Bar".to_string())
    );
}

#[test]
fn stops_on_redirect_loop() {
    let redirects = table(&[("Foo", "Bar"), ("Bar", "Foo")]);
    assert!(matches!(
        resolve("Foo", &redirects, &TitleSet::new()),
        PageState::Redirect(_)
    ));
}

#[test]
fn reads_pair_tables() {
    let value = Json::Array(vec![
        object(vec![("from", text("foo")), ("to", text("Foo"))]),
        object(vec![("from", text("bar"))]),
    ]);
    let table = pairs(&value);
    assert_eq!(table.len(), 1);
    assert_eq!(table.get("foo").map(String::as_str), Some("Foo"));
}

#[test]
fn follows_five_hops_at_most() {
    let redirects = table(&[
        ("a", "b"),
        ("b", "c"),
        ("c", "d"),
        ("d", "e"),
        ("e", "f"),
        ("f", "g"),
    ]);
    assert_eq!(
        resolve("a", &redirects, &TitleSet::new()),
        PageState::Redirect("f".to_string())
    );
    assert_eq!(
        resolve("b", &redirects, &TitleSet::new()),
        PageState::Redirect("g".to_string())
    );
}

#[test]
fn takes_the_last_of_two_pairs() {
    let value = Json::Array(vec![
        object(vec![("from", text("a")), ("to", text("b"))]),
        object(vec![("from", text("a")), ("to", text("c"))]),
    ]);
    assert_eq!(pairs(&value).get("a").map(String::as_str), Some("c"));
    assert_eq!(pairs(&Json::Null).len(), 0);
}

#[test]
fn reads_missing_titles() {
    let pages = vec![
        object(vec![("title", text("a")), ("missing", Json::Bool(true))]),
        object(vec![("title", text("b")), ("missing", Json::Bool(false))]),
        object(vec![("title", text("c"))]),
        object(vec![("missing", Json::Bool(true))]),
    ];
    let missing = missing_titles(&pages);
    assert!(missing.contains("a"));
    assert!(!missing.contains("b"));
    assert!(!missing.contains("c"));
}

#[test]
fn asks_for_states() {
    let titles = vec!["甲".to_string(), "乙".to_string()];
    assert_eq!(
        page_states_request(&titles),
        vec![
            ("action", "query".to_string()),
            ("prop", "info".to_string()),
            ("titles", "甲|乙".to_string()),
            ("redirects", "1".to_string()),
            ("formatversion", "2".to_string()),
        ]
    );
}

#[test]
fn keys_states_by_the_titles_asked_for() {
    let resp = object(vec![(
        "query",
        object(vec![
            (
                "normalized",
                Json::Array(vec![object(vec![
                    ("from", text("foo")),
                    ("to", text("Foo")),
                ])]),
            ),
            (
                "redirects",
                Json::Array(vec![object(vec![
                    ("from", text("Foo")),
                    ("to", text("Bar")),
                ])]),
            ),
            (
                "pages",
                Json::Array(vec![
                    object(vec![("title", text("Bar"))]),
                    object(vec![("title", text("Gone")), ("missing", Json::Bool(true))]),
                ]),
            ),
        ]),
    )]);
    let titles: Vec<String> = ["foo", "Gone", "Here"].map(str::to_string).to_vec();
    let states = page_states(&resp, &titles);
    assert_eq!(
        states.get("foo"),
        Some(&PageState::Redirect("Bar".to_string()))
    );
    assert_eq!(states.get("Gone"), Some(&PageState::Missing));
    assert_eq!(states.get("Here"), Some(&PageState::Exists));
    assert_eq!(states.get("Foo"), None);
}

#[test]
fn later_states_replace_earlier_ones() {
    let mut states = StateTable::new();
    states.insert("a".to_string(), PageState::Exists);
    states.insert("b".to_string(), PageState::Exists);
    let mut newer = StateTable::new();
    newer.insert("b".to_string(), PageState::Missing);
    states.extend(newer);
    assert_eq!(states.get("a"), Some(&PageState::Exists));
    assert_eq!(states.get("b"), Some(&PageState::Missing));
    assert!(!states.contains_key("c"));
}
