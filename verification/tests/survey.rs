use wikipedia_sz_bot::api::{Failure, QueryPageItem};
use wikipedia_sz_bot::json::Json;
use wikipedia_sz_bot::tasks::templatedata::survey::Survey;

fn text(value: &str) -> Json {
    Json::Text(value.to_string())
}

fn object(members: Vec<(&str, Json)>) -> Json {
    Json::Object(
        members
            .into_iter()
            .map(|(key, value)| (key.to_string(), value))
            .collect(),
    )
}

fn results(items: &[(&str, u64)], next: Option<u64>) -> Json {
    let list = items
        .iter()
        .map(|(title, value)| {
            object(vec![
                ("ns", Json::Unsigned(10)),
                ("title", text(title)),
                ("value", text(&value.to_string())),
            ])
        })
        .collect();
    let mut members = vec![(
        "query",
        object(vec![(
            "querypage",
            object(vec![("results", Json::Array(list))]),
        )]),
    )];
    if let Some(offset) = next {
        members.push(("continue", object(vec![("qpoffset", Json::Unsigned(offset))])));
    }
    object(members)
}

fn with_templatedata(titles: &[&str]) -> Json {
    let pages = titles
        .iter()
        .map(|title| (*title, object(vec![("title", text(title))])))
        .collect();
    object(vec![("pages", object(pages))])
}

fn rights(names: &[&str]) -> Json {
    let list = names.iter().map(|name| text(name)).collect();
    object(vec![(
        "query",
        object(vec![("userinfo", object(vec![("rights", Json::Array(list))]))]),
    )])
}

fn transclusions(ids: std::ops::Range<u64>, more: bool) -> Json {
    let list = ids
        .map(|id| object(vec![("pageid", Json::Unsigned(id))]))
        .collect();
    let mut members = vec![(
        "query",
        object(vec![(
            "pages",
            Json::Array(vec![object(vec![("transcludedin", Json::Array(list))])]),
        )]),
    )];
    if more {
        members.push(("continue", object(vec![("ticontinue", text("9"))])));
    }
    object(members)
}

fn contents(texts: &[&str]) -> Json {
    let pages = texts
        .iter()
        .map(|content| {
            object(vec![(
                "revisions",
                Json::Array(vec![object(vec![(
                    "slots",
                    object(vec![("main", object(vec![("content", text(content))]))]),
                )])]),
            )])
        })
        .collect();
    object(vec![("query", object(vec![("pages", Json::Array(pages))]))])
}

fn value(survey: &Survey, name: &str) -> Option<String> {
    let params = survey.request()?;
    params
        .into_iter()
        .find(|(key, _)| *key == name)
        .map(|(_, value)| value)
}

fn usage(title: &str, value: u64, count: u64, truncated: bool) -> QueryPageItem {
    QueryPageItem {
        title: title.to_string(),
        value,
        main_namespace_transclusions: count,
        main_namespace_truncated: truncated,
    }
}

#[test]
fn surveys_templates() {
    let mut survey = Survey::start(4);
    assert_eq!(
        value(&survey, "qppage").as_deref(),
        Some("Mostlinkedtemplates")
    );
    assert_eq!(value(&survey, "qpoffset").as_deref(), Some("0"));
    survey = survey.answer(Ok(results(
        &[("Template:A", 9), ("Template:B", 8)],
        Some(500),
    )));
    assert_eq!(value(&survey, "qpoffset").as_deref(), Some("500"));
    survey = survey.answer(Ok(results(
        &[("Template:C", 7), ("Template:D", 6), ("Template:E", 5)],
        Some(1000),
    )));
    assert_eq!(
        value(&survey, "titles").as_deref(),
        Some("Template:A|Template:B|Template:C|Template:D")
    );
    survey = survey.answer(Ok(with_templatedata(&["Template:B"])));
    assert_eq!(value(&survey, "meta").as_deref(), Some("userinfo"));
    survey = survey.answer(Ok(rights(&["apihighlimits"])));
    assert_eq!(value(&survey, "titles").as_deref(), Some("Template:A"));
    assert_eq!(value(&survey, "tilimit").as_deref(), Some("5000"));
    assert!(!survey.is_retried());

    // Two batches of pages, the second of which cannot be had.
    survey = survey.answer(Ok(transclusions(0..60, true)));
    assert!(survey.is_retried());
    assert_eq!(
        value(&survey, "pageids").unwrap().split('|').count(),
        50
    );
    survey = survey.answer(Ok(contents(&["{{A}}", "{{B}}", "{{a|x}}"])));
    assert_eq!(
        value(&survey, "pageids").as_deref(),
        Some("50|51|52|53|54|55|56|57|58|59")
    );
    survey = survey.answer(Err(Failure::Http(None)));

    // A template that cannot be counted, and one without pages.
    assert_eq!(value(&survey, "titles").as_deref(), Some("Template:C"));
    survey = survey.answer(Err(Failure::Unknown("rejected".to_string())));
    assert_eq!(value(&survey, "titles").as_deref(), Some("Template:D"));
    survey = survey.answer(Ok(transclusions(0..0, false)));

    assert!(survey.request().is_none());
    match survey {
        Survey::Done { templates } => assert_eq!(
            templates,
            vec![
                usage("Template:A", 9, 2, true),
                usage("Template:C", 7, 0, false),
                usage("Template:D", 6, 0, false),
            ]
        ),
        _ => panic!("the survey has not ended"),
    }
}

#[test]
fn asks_for_templatedata_in_batches() {
    let titles: Vec<String> = (0..70).map(|n| format!("Template:{n}")).collect();
    let items: Vec<(&str, u64)> = titles.iter().map(|title| (title.as_str(), 1)).collect();
    let mut survey = Survey::start(1000).answer(Ok(results(&items, None)));
    assert_eq!(value(&survey, "titles").unwrap().split('|').count(), 50);
    survey = survey.answer(Ok(with_templatedata(&["Template:1"])));
    assert_eq!(value(&survey, "titles").unwrap().split('|').count(), 20);
    survey = survey.answer(Ok(with_templatedata(&["Template:60"])));
    match survey {
        Survey::Rights { kept } => assert_eq!(kept.len(), 68),
        _ => panic!("the survey does not ask for rights"),
    }
}

#[test]
fn fails_with_the_request() {
    let survey = Survey::start(5).answer(Err(Failure::Http(Some(404))));
    match survey.answer(Ok(Json::Null)) {
        Survey::Failed { failure } => assert_eq!(failure, Failure::Http(Some(404))),
        _ => panic!("the survey has not failed"),
    }
    match Survey::start(5).answer(Ok(Json::Null)) {
        Survey::Failed { failure } => assert_eq!(
            failure,
            Failure::Unknown("querypage results are missing".to_string())
        ),
        _ => panic!("the survey has not failed"),
    }
}

#[test]
fn surveys_nothing() {
    let survey = Survey::start(0);
    assert_eq!(value(&survey, "uiprop").as_deref(), Some("rights"));
    match survey.answer(Ok(rights(&[]))) {
        Survey::Done { templates } => assert!(templates.is_empty()),
        _ => panic!("the survey has not ended"),
    }
}

#[test]
fn ends_with_the_top_templates() {
    let titles: Vec<String> = (0..60).map(|n| format!("Template:{n}")).collect();
    let items: Vec<(&str, u64)> = titles.iter().map(|title| (title.as_str(), 7)).collect();
    let mut survey = Survey::start(60)
        .answer(Ok(results(&items, None)))
        .answer(Ok(with_templatedata(&["Template:3"])))
        .answer(Ok(with_templatedata(&[])))
        .answer(Ok(rights(&[])));
    while let Some(title) = value(&survey, "titles") {
        let ids = if title == "Template:58" { 1..2 } else { 0..0 };
        let used = !ids.is_empty();
        survey = survey.answer(Ok(transclusions(ids, false)));
        if used {
            survey = survey.answer(Ok(contents(&["{{58}}"])));
        }
    }
    let top = survey.finish().unwrap();
    assert_eq!(top.len(), 50);
    assert_eq!(top[0], usage("Template:58", 7, 1, false));
    assert_eq!(top[1].title, "Template:0");
    assert_eq!(top[4].title, "Template:4");
    assert_eq!(top[49].title, "Template:49");

    let failed = Survey::start(5).answer(Err(Failure::Http(None)));
    assert_eq!(failed.finish(), Err(Failure::Http(None)));
}

#[test]
fn uses_the_low_limit_without_the_right() {
    let survey = Survey::start(1)
        .answer(Ok(results(&[("Template:A", 9)], None)))
        .answer(Ok(with_templatedata(&[])))
        .answer(Ok(rights(&["read"])));
    assert_eq!(value(&survey, "tilimit").as_deref(), Some("500"));
}
