use wikipedia_sz_bot::api::{
    count_direct_invocations, has_high_limits, has_template_invocation, is_transient,
    page_contents_request, query_page_request, query_page_results, rights_request,
    strip_template_prefix, templatedata_request, titles_with_templatedata, transcluding_pages,
    transclusion_limit, transclusions_request, Failure, QueryPageItem, Retry, RetryStep, HIGH_LIMIT,
    LOW_LIMIT,
};
use wikipedia_sz_bot::json::Json;

fn text(value: &str) -> Json {
    Json::Text(value.to_string())
}

fn object(members: Vec<(&str, Json)>) -> Json {
    Json::Object(
        members
            .into_iter()
            .map(|(key, value)| (key.to_string(), value))
            .collect(),
    )
}

fn page_with(content: &str) -> Json {
    object(vec![(
        "revisions",
        Json::Array(vec![object(vec![(
            "slots",
            object(vec![("main", object(vec![("content", text(content))]))]),
        )])]),
    )])
}

fn item(title: &str, value: u64) -> QueryPageItem {
    QueryPageItem {
        title: title.to_string(),
        value,
        main_namespace_transclusions: 0,
        main_namespace_truncated: false,
    }
}

#[test]
fn treats_api_errors_as_permanent() {
    assert!(!is_transient(&Failure::Unknown("rejected".to_string())));
}

#[test]
fn does_not_retry_a_rejected_request() {
    let step = Retry::new().after_failure(&Failure::Unknown("rejected".to_string()));
    assert_eq!(step, RetryStep::Fail);
}

#[test]
fn retries_what_clears_up() {
    assert!(is_transient(&Failure::Http(None)));
    assert!(is_transient(&Failure::Http(Some(500))));
    assert!(is_transient(&Failure::Http(Some(599))));
    assert!(!is_transient(&Failure::Http(Some(499))));
    assert!(!is_transient(&Failure::Http(Some(600))));

    let failure = Failure::Http(Some(503));
    let first = Retry::new().after_failure(&failure);
    assert_eq!(first, RetryStep::Again(1, Retry { failed: 1 }));
    let second = Retry { failed: 1 }.after_failure(&failure);
    assert_eq!(second, RetryStep::Again(2, Retry { failed: 2 }));
    let third = Retry { failed: 2 }.after_failure(&failure);
    assert_eq!(third, RetryStep::FailAfter(4));
}

#[test]
fn selects_limit_by_high_limits() {
    assert_eq!(transclusion_limit(true), HIGH_LIMIT);
    assert_eq!(transclusion_limit(false), LOW_LIMIT);
}

#[test]
fn limits_are_those_of_the_api() {
    assert_eq!(HIGH_LIMIT, 5000);
    assert_eq!(LOW_LIMIT, 500);
}

#[test]
fn strips_template_prefix() {
    assert_eq!(strip_template_prefix("Template:Infobox"), "Infobox");
    assert_eq!(
        strip_template_prefix("Template:Hlist/styles.css"),
        "Hlist/styles.css"
    );
    assert_eq!(strip_template_prefix("Infobox"), "Infobox");
}

#[test]
fn detects_direct_invocations() {
    assert!(has_template_invocation("foo {{Infobox}} bar", "Infobox"));
    assert!(has_template_invocation(
        "foo {{Infobox|title=x}} bar",
        "Infobox"
    ));
    assert!(has_template_invocation(
        "foo {{ infobox |x}} bar",
        "Infobox"
    ));
    assert!(has_template_invocation("{{Infobox}}", "Infobox"));
}

#[test]
fn ignores_non_invocations() {
    assert!(!has_template_invocation(
        "foo {{Infobox/row}} bar",
        "Infobox"
    ));
    assert!(!has_template_invocation(
        "foo {{Infobox-sub}} bar",
        "Infobox"
    ));
    assert!(!has_template_invocation("foo [[Infobox]] bar", "Infobox"));
    assert!(!has_template_invocation("foo {{#if:x|y}} bar", "Infobox"));
    assert!(!has_template_invocation("no template here", "Infobox"));
    assert!(!has_template_invocation("foo {{Info}} bar", "Infobox"));
}

#[test]
fn ends_names_at_comments_and_lines() {
    assert!(has_template_invocation("{{Infobox<!-- x -->}}", "infobox"));
    assert!(has_template_invocation("{{Infobox\n|x}}", "infobox"));
    assert!(has_template_invocation("{{Infobox", "infobox"));
    assert!(!has_template_invocation("{{x|{Infobox}}", "infobox"));
    assert!(!has_template_invocation("", "infobox"));
}

#[test]
fn counts_invoking_pages() {
    let resp = object(vec![(
        "query",
        object(vec![(
            "pages",
            Json::Array(vec![
                page_with("{{A}} {{A}}"),
                page_with("{{B}}"),
                page_with("x {{a|1}}"),
                object(vec![]),
            ]),
        )]),
    )]);
    assert_eq!(count_direct_invocations(&resp, "A"), 2);
    assert_eq!(count_direct_invocations(&resp, "B"), 1);
    assert_eq!(count_direct_invocations(&Json::Null, "A"), 0);
}

#[test]
fn reads_query_page_results() {
    let result = |ns: u64, title: &str, value: Json| {
        object(vec![
            ("ns", Json::Unsigned(ns)),
            ("title", text(title)),
            ("value", value),
        ])
    };
    let resp = object(vec![
        (
            "query",
            object(vec![(
                "querypage",
                object(vec![(
                    "results",
                    Json::Array(vec![
                        result(10, "Template:A", text("1013254")),
                        result(0, "Article", text("5")),
                        result(10, "Template:B", text("many")),
                        result(10, "Template:C", Json::Unsigned(7)),
                        result(10, "Template:D", text("3")),
                    ]),
                )]),
            )]),
        ),
        ("continue", object(vec![("qpoffset", Json::Unsigned(500))])),
    ]);
    assert_eq!(
        query_page_results(&resp),
        Ok((
            vec![item("Template:A", 1_013_254), item("Template:D", 3)],
            Some(500)
        ))
    );
}

#[test]
fn misses_query_page_results() {
    assert_eq!(
        query_page_results(&Json::Null),
        Err(Failure::Unknown("querypage results are missing".to_string()))
    );
}

#[test]
fn reads_titles_with_templatedata() {
    let resp = object(vec![(
        "pages",
        object(vec![
            ("1", object(vec![("title", text("Template:A"))])),
            ("2", object(vec![])),
            ("3", object(vec![("title", text("Template:C"))])),
        ]),
    )]);
    let templates = [item("Template:A", 2), item("Template:B", 1)];
    let titles = titles_with_templatedata(&templates, &resp);
    assert!(titles.contains("Template:A"));
    assert!(!titles.contains("Template:B"));
    assert!(!titles.contains("Template:C"));
}

#[test]
fn reads_rights() {
    let resp = |rights: Vec<Json>| {
        object(vec![(
            "query",
            object(vec![(
                "userinfo",
                object(vec![("rights", Json::Array(rights))]),
            )]),
        )])
    };
    assert!(has_high_limits(&resp(vec![text("read"), text("apihighlimits")])));
    assert!(!has_high_limits(&resp(vec![text("read")])));
    assert!(!has_high_limits(&Json::Null));
}

#[test]
fn reads_transcluding_pages() {
    let resp = object(vec![
        (
            "query",
            object(vec![(
                "pages",
                Json::Array(vec![object(vec![(
                    "transcludedin",
                    Json::Array(vec![
                        object(vec![("pageid", Json::Unsigned(3))]),
                        object(vec![]),
                        object(vec![("pageid", Json::Unsigned(1))]),
                    ]),
                )])]),
            )]),
        ),
        ("continue", object(vec![("ticontinue", text("4"))])),
    ]);
    assert_eq!(transcluding_pages(&resp), (vec![3, 1], true));
    assert_eq!(transcluding_pages(&Json::Null), (vec![], false));
}

#[test]
fn asks_the_api() {
    assert_eq!(
        query_page_request("Mostlinkedtemplates", 500),
        vec![
            ("action", "query".to_string()),
            ("list", "querypage".to_string()),
            ("qppage", "Mostlinkedtemplates".to_string()),
            ("qplimit", "500".to_string()),
            ("qpoffset", "500".to_string()),
        ]
    );
    assert_eq!(
        templatedata_request(&[item("Template:A", 2), item("Template:B", 1)]),
        vec![
            ("action", "templatedata".to_string()),
            ("titles", "Template:A|Template:B".to_string()),
        ]
    );
    assert_eq!(
        rights_request(),
        vec![
            ("action", "query".to_string()),
            ("meta", "userinfo".to_string()),
            ("uiprop", "rights".to_string()),
        ]
    );
    assert_eq!(
        transclusions_request("Template:A", 5000),
        vec![
            ("action", "query".to_string()),
            ("prop", "transcludedin".to_string()),
            ("titles", "Template:A".to_string()),
            ("tinamespace", "0".to_string()),
            ("tilimit", "5000".to_string()),
        ]
    );
    assert_eq!(
        page_contents_request(&[1, 20, 300]),
        vec![
            ("action", "query".to_string()),
            ("prop", "revisions".to_string()),
            ("rvprop", "content".to_string()),
            ("rvslots", "main".to_string()),
            ("pageids", "1|20|300".to_string()),
            ("formatversion", "2".to_string()),
        ]
    );
}
