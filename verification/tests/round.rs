use wikipedia_sz_bot::api::Failure;
use wikipedia_sz_bot::json::Json;
use wikipedia_sz_bot::tasks::ill::caches::Caches;
use wikipedia_sz_bot::tasks::ill::jawiki::PageState;
use wikipedia_sz_bot::tasks::ill::pace::round_line;
use wikipedia_sz_bot::tasks::ill::round::{Channel, Counts, Round};
use wikipedia_sz_bot::tasks::ill::wikidata::Wikidata;
use wikipedia_sz_bot::titles::TitleSet;

fn text(value: &str) -> Json {
    Json::Text(value.to_string())
}

fn object(members: Vec<(&str, Json)>) -> Json {
    Json::Object(
        members
            .into_iter()
            .map(|(key, value)| (key.to_string(), value))
            .collect(),
    )
}

fn contents(pages: &[(&str, &str)]) -> Json {
    let list = pages
        .iter()
        .map(|(title, content)| {
            object(vec![
                ("title", text(title)),
                (
                    "revisions",
                    Json::Array(vec![object(vec![(
                        "slots",
                        object(vec![("main", object(vec![("content", text(content))]))]),
                    )])]),
                ),
            ])
        })
        .collect();
    object(vec![("query", object(vec![("pages", Json::Array(list))]))])
}

fn missing(titles: &[&str]) -> Json {
    let list = titles
        .iter()
        .map(|title| object(vec![("title", text(title)), ("missing", Json::Bool(true))]))
        .collect();
    object(vec![("query", object(vec![("pages", Json::Array(list))]))])
}

fn entity(site: &str, title: &str, ja: &str) -> Json {
    object(vec![(
        "entities",
        object(vec![(
            "Q1",
            object(vec![(
                "sitelinks",
                object(vec![
                    (site, object(vec![("title", text(title))])),
                    ("jawiki", object(vec![("title", text(ja))])),
                ]),
            )]),
        )]),
    )])
}

fn wikidata() -> Wikidata {
    let mut sites = TitleSet::new();
    sites.insert("enwiki".to_string());
    sites.insert("dewiki".to_string());
    Wikidata { sites }
}

fn request(round: &Round, name: &str) -> Option<(Channel, String)> {
    let (channel, params) = round.request(2)?;
    params
        .into_iter()
        .find(|(key, _)| *key == name)
        .map(|(_, value)| (channel, value))
}

#[test]
fn runs_a_round() {
    let wikidata = wikidata();
    let mut caches = Caches::new();
    let articles = vec![(7, "甲".to_string()), (8, "乙".to_string())];
    let (round, unknown) = Round::start(articles, &wikidata, &mut caches, 2);
    assert!(unknown.is_empty());
    assert_eq!(
        request(&round, "pageids"),
        Some((Channel::Content, "7|8".to_string()))
    );
    let resp = contents(&[
        ("甲", "{{ill|a|en|A}}{{ill|b|xx|B}}"),
        ("乙", "{{ill|c|de|C}}{{ill|a|en|A2}}"),
    ]);
    let (round, unknown) = round.answer(&wikidata, &mut caches, 2, Ok(resp));
    assert!(unknown.is_empty());
    assert_eq!(
        request(&round, "titles"),
        Some((Channel::State, "a|b".to_string()))
    );
    let (round, _) = round.answer(&wikidata, &mut caches, 2, Ok(missing(&["a", "b"])));
    assert_eq!(
        request(&round, "titles"),
        Some((Channel::State, "c".to_string()))
    );
    let (round, unknown) = round.answer(&wikidata, &mut caches, 2, Ok(missing(&["c"])));
    assert_eq!(unknown, ["xx"]);
    assert_eq!(
        request(&round, "sites"),
        Some((Channel::Sitelink, "enwiki".to_string()))
    );
    assert_eq!(
        request(&round, "titles"),
        Some((Channel::Sitelink, "A|A2".to_string()))
    );
    let resp = entity("enwiki", "A2", "先");
    let (round, _) = round.answer(&wikidata, &mut caches, 2, Ok(resp));
    assert_eq!(
        request(&round, "sites"),
        Some((Channel::Sitelink, "dewiki".to_string()))
    );
    let (round, _) = round.answer(&wikidata, &mut caches, 2, Err(Failure::Http(None)));

    assert!(round.request(2).is_none());
    match round {
        Round::Ended { found, counts } => {
            assert_eq!(found.len(), 1);
            assert_eq!(found[0].article, "乙");
            assert_eq!(found[0].linked, "先");
            assert_eq!(found[0].state, PageState::Missing);
            assert_eq!(
                counts,
                Counts {
                    calls: 4,
                    titles: 3,
                    title_requests: 2,
                    sitelinks: 3,
                    sitelink_requests: 2,
                }
            );
        }
        _ => panic!("the round has not ended"),
    }
    assert_eq!(caches.sitelinks.get("enwiki", "A"), Some(&None));
    assert_eq!(caches.sitelinks.get("dewiki", "C"), None);
}

#[test]
fn skips_what_is_known() {
    let wikidata = wikidata();
    let mut caches = Caches::new();
    let pages = contents(&[("甲", "{{ill|a|en|A}}")]);
    let articles = vec![(7, "甲".to_string())];
    let (round, _) = Round::start(articles, &wikidata, &mut caches, 2);
    let (round, _) = round.answer(&wikidata, &mut caches, 2, Ok(pages));
    let (round, _) = round.answer(&wikidata, &mut caches, 2, Ok(missing(&["a"])));
    let resp = entity("enwiki", "A", "先");
    let (round, _) = round.answer(&wikidata, &mut caches, 2, Ok(resp));
    assert!(matches!(round, Round::Ended { .. }));

    let pages = contents(&[("乙", "{{ill|a|en|A}}")]);
    let articles = vec![(8, "乙".to_string())];
    let (round, _) = Round::start(articles, &wikidata, &mut caches, 2);
    let (round, _) = round.answer(&wikidata, &mut caches, 2, Ok(pages));
    match round {
        Round::Ended { found, counts } => {
            assert_eq!(found.len(), 1);
            assert_eq!(found[0].article, "乙");
            assert_eq!((counts.calls, counts.titles, counts.sitelinks), (1, 0, 0));
            assert_eq!((counts.title_requests, counts.sitelink_requests), (0, 0));
        }
        _ => panic!("the round has not ended"),
    }
}

#[test]
fn skips_batches_that_cannot_be_had() {
    let wikidata = wikidata();
    let mut caches = Caches::new();
    let articles: Vec<(u64, String)> = (0..60).map(|id| (id, format!("記事{id}"))).collect();
    let (round, _) = Round::start(articles, &wikidata, &mut caches, 2);
    let (_, first) = request(&round, "pageids").unwrap();
    assert_eq!(first.split('|').count(), 50);
    let (round, _) = round.answer(&wikidata, &mut caches, 2, Err(Failure::Http(None)));
    let (_, second) = request(&round, "pageids").unwrap();
    assert_eq!(second.split('|').count(), 10);
    let pages = contents(&[("記事55", "{{ill|a|en|A}}")]);
    let (round, _) = round.answer(&wikidata, &mut caches, 2, Ok(pages));
    let (round, _) = round.answer(&wikidata, &mut caches, 2, Err(Failure::Http(None)));
    match round {
        Round::Ended { found, counts } => {
            assert!(found.is_empty());
            assert_eq!(counts.titles, 1);
        }
        _ => panic!("the round has not ended"),
    }
    assert!(!caches.ja.contains_key("a"));
}

#[test]
fn rounds_without_articles_end_at_once() {
    let wikidata = wikidata();
    let mut caches = Caches::new();
    let (round, unknown) = Round::start(Vec::new(), &wikidata, &mut caches, 2);
    assert!(unknown.is_empty());
    assert!(round.request(50).is_none());
}

#[test]
fn describes_rounds() {
    let counts = Counts {
        calls: 1100,
        titles: 1048,
        title_requests: 21,
        sitelinks: 1084,
        sitelink_requests: 34,
    };
    assert_eq!(
        round_line(counts, "174.4", "181.2"),
        "round: 1100 calls, 1048 titles in 21 requests (174.4s), \
         1084 sitelinks in 34 requests (181.2s)"
    );
}

#[test]
fn counts_the_requests_of_a_round() {
    let wikidata = wikidata();
    let mut caches = Caches::new();
    let articles = vec![(7, "甲".to_string())];
    let call = |n: usize| {
        let lang = if n < 60 { "en" } else { "de" };
        format!("{{{{ill|題{n}|{lang}|Title {n}}}}}")
    };
    let wikitext: String = (0..75).map(call).collect();
    let titles: Vec<String> = (0..75).map(|n| format!("題{n}")).collect();
    let titles: Vec<&str> = titles.iter().map(String::as_str).collect();
    let (mut round, _) = Round::start(articles, &wikidata, &mut caches, 20);
    let mut state_requests = 0;
    let mut sitelink_requests = 0;
    while let Some((channel, _)) = round.request(20) {
        let reply = match channel {
            Channel::Content => contents(&[("甲", &wikitext)]),
            Channel::State => {
                state_requests += 1;
                missing(&titles)
            }
            Channel::Sitelink => {
                sitelink_requests += 1;
                Json::Null
            }
        };
        round = round.answer(&wikidata, &mut caches, 20, Ok(reply)).0;
    }
    match round {
        Round::Ended { counts, .. } => {
            assert_eq!((counts.titles, counts.title_requests), (75, 4));
            assert_eq!((counts.sitelinks, counts.sitelink_requests), (75, 3));
            assert_eq!((state_requests, sitelink_requests), (4, 3));
        }
        _ => panic!("the round has not ended"),
    }
}
