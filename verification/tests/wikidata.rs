use wikipedia_sz_bot::api::Failure;
use wikipedia_sz_bot::json::Json;
use wikipedia_sz_bot::letters::raise_char;
use wikipedia_sz_bot::tasks::ill::wikidata::{
    after_attempt, collect_sitelinks, ja_titles_for_ids_request, ja_titles_for_site_request, known_sites,
    known_sites_request, normalize_title, site_name, Access, Connect, Wikidata,
};
use wikipedia_sz_bot::titles::TitleSet;

fn text(value: &str) -> Json {
    Json::Text(value.to_string())
}

fn object(members: Vec<(&str, Json)>) -> Json {
    Json::Object(
        members
            .into_iter()
            .map(|(key, value)| (key.to_string(), value))
            .collect(),
    )
}

fn sitelink(site: &str, title: &str) -> Json {
    object(vec![("site", text(site)), ("title", text(title))])
}

#[test]
fn normalizes_titles() {
    assert_eq!(normalize_title(" foo_bar "), "Foo bar");
    assert_eq!(normalize_title("Foo bar"), "Foo bar");
    assert_eq!(normalize_title("アンパサンド"), "アンパサンド");
}

#[test]
fn collects_sitelink_pairs() {
    let resp = object(vec![(
        "entities",
        object(vec![
            (
                "Q51500",
                object(vec![(
                    "sitelinks",
                    object(vec![
                        ("enwiki", sitelink("enwiki", "Ampère's circuital law")),
                        ("jawiki", sitelink("jawiki", "アンペールの法則")),
                    ]),
                )]),
            ),
            (
                "Q1",
                object(vec![(
                    "sitelinks",
                    object(vec![("enwiki", sitelink("enwiki", "Universe"))]),
                )]),
            ),
            (
                "-1",
                object(vec![("missing", text("")), ("title", text("Nonexistent"))]),
            ),
        ]),
    )]);

    let found = collect_sitelinks(&resp, "enwiki");
    assert_eq!(found.len(), 1);
    assert_eq!(
        found.get("Ampère's circuital law").map(String::as_str),
        Some("アンペールの法則")
    );
}

#[test]
fn maps_language_codes_to_sites() {
    assert_eq!(site_name("en"), "enwiki");
    assert_eq!(site_name("EN"), "enwiki");
    assert_eq!(site_name("zh-min-nan"), "zh_min_nanwiki");
    assert_eq!(site_name("be-tarask"), "be_x_oldwiki");
    assert_eq!(site_name("nb"), "nowiki");
    assert_eq!(site_name("gsw"), "alswiki");
}

#[test]
fn knows_every_exception() {
    assert_eq!(site_name("lzh"), "zh_classicalwiki");
    assert_eq!(site_name("nan"), "zh_min_nanwiki");
    assert_eq!(site_name("rup"), "roa_rupwiki");
    assert_eq!(site_name("sgs"), "bat_smgwiki");
    assert_eq!(site_name("vro"), "fiu_vrowiki");
    assert_eq!(site_name(" Yue "), "zh_yuewiki");
    assert_eq!(site_name(""), "wiki");
}

#[test]
fn normalizing_twice_changes_nothing() {
    for title in ["", "_", " _ a", "__foo__bar__", "é", "\u{3000}x_", "q42"] {
        let once = normalize_title(title);
        assert_eq!(normalize_title(&once), once);
    }
    assert_eq!(normalize_title("__foo__bar__"), "Foo bar");
    assert_eq!(normalize_title("élan"), "Élan");
    assert_eq!(normalize_title("q42"), "Q42");
    assert_eq!(normalize_title("_"), "");
}

#[test]
fn raises_the_first_letter_of_any_alphabet() {
    for (title, expected) in [
        ("élan_vital", "Élan vital"),
        ("ÿ", "Ÿ"),
        ("ŝipo", "Ŝipo"),
        ("žena", "Žena"),
        ("ủy ban", "Ủy ban"),
        ("ət", "Ət"),
        ("ılıca", "Ilıca"),
        ("έρως", "Έρως"),
        ("λόγος", "Λόγος"),
        ("мир", "Мир"),
        ("ёж", "Ёж"),
        ("ґанок", "Ґанок"),
        ("հայ", "Հայ"),
        ("ßa", "ßa"),
        ("÷", "÷"),
        ("საქართველო", "საქართველო"),
        ("µ", "\u{39c}"),
        ("ǆ", "Ǆ"),
        ("ἀρχή", "Ἀρχή"),
        ("ａｂｃ", "Ａｂｃ"),
        ("仮", "仮"),
    ] {
        assert_eq!(normalize_title(title), expected);
    }
}

#[test]
fn letters_have_their_upper_case() {
    let expected = |c: char| {
        let upper: Vec<char> = c.to_uppercase().collect();
        let georgian = ('\u{10d0}'..='\u{10ff}').contains(&c);
        if georgian || upper.len() > 1 { c } else { upper[0] }
    };
    let wrong: Vec<char> = ('\0'..=char::MAX)
        .filter(|c| raise_char(*c) != expected(*c))
        .collect();
    assert_eq!(wrong, []);
}

#[test]
fn runs_of_gaps_are_one_space() {
    for (title, expected) in [
        ("foo   bar", "Foo bar"),
        ("foo_ _bar", "Foo bar"),
        (" _ foo _ ", "Foo"),
        ("a\u{3000}b\u{a0}_c", "A b c"),
        (" _ ", ""),
        ("a b_c", "A b c"),
    ] {
        assert_eq!(normalize_title(title), expected);
    }
}

#[test]
fn underscores_stand_for_spaces() {
    for title in ["foo bar", " foo  bar ", "", " ", "a_b c", "\u{3000} x y"] {
        let other = title.replace(' ', "_");
        assert_eq!(normalize_title(&other), normalize_title(title));
    }
}

#[test]
fn falls_back_to_anonymous_access() {
    assert!(matches!(Connect::start(), Connect::Try(Access::Bot)));
    let refused = || Err(Failure::Http(Some(403)));
    assert!(matches!(
        after_attempt(Access::Bot, refused()),
        Connect::Try(Access::Anonymous)
    ));
    match after_attempt(Access::Anonymous, refused()) {
        Connect::Failed(failure) => assert_eq!(failure, Failure::Http(Some(403))),
        _ => panic!("there is no third attempt"),
    }
    for access in [Access::Bot, Access::Anonymous] {
        let mut sites = TitleSet::new();
        sites.insert("enwiki".to_string());
        match after_attempt(access, Ok(sites)) {
            Connect::Connected(used, sites) => {
                assert_eq!(used, access);
                assert!(sites.contains("enwiki"));
            }
            _ => panic!("the attempt succeeded"),
        }
    }
}

#[test]
fn accepts_known_sites_only() {
    let mut sites = TitleSet::new();
    sites.insert("enwiki".to_string());
    let wikidata = Wikidata { sites };
    assert_eq!(wikidata.site_for("en"), Some("enwiki".to_string()));
    assert_eq!(wikidata.site_for("de"), None);
}

#[test]
fn reads_the_site_list() {
    let resp = object(vec![(
        "paraminfo",
        object(vec![(
            "modules",
            Json::Array(vec![object(vec![(
                "parameters",
                Json::Array(vec![
                    object(vec![("name", text("ids"))]),
                    object(vec![
                        ("name", text("sites")),
                        (
                            "type",
                            Json::Array(vec![text("enwiki"), Json::Null, text("dewiki")]),
                        ),
                    ]),
                ]),
            )])]),
        )]),
    )]);
    match known_sites(&resp) {
        Ok(sites) => {
            assert!(sites.contains("enwiki"));
            assert!(sites.contains("dewiki"));
            assert!(!sites.contains("jawiki"));
        }
        Err(failure) => panic!("{failure:?}"),
    }
}

#[test]
fn misses_the_site_list() {
    let expected = Failure::Unknown("wbgetentities site list is missing".to_string());
    assert_eq!(known_sites(&Json::Null).err(), Some(expected));
}

#[test]
fn reads_titles_by_id() {
    let resp = object(vec![(
        "entities",
        object(vec![
            (
                "q42",
                object(vec![(
                    "sitelinks",
                    object(vec![("jawiki", sitelink("jawiki", "ダグラス・アダムズ"))]),
                )]),
            ),
            ("Q1", object(vec![("sitelinks", object(vec![]))])),
        ]),
    )]);
    let found = Wikidata::ja_titles_for_ids(&resp);
    assert_eq!(found.len(), 1);
    assert_eq!(
        found.get("Q42").map(String::as_str),
        Some("ダグラス・アダムズ")
    );
}

#[test]
fn asks_for_sitelinks() {
    let titles = vec!["A".to_string(), "B".to_string()];
    assert_eq!(
        ja_titles_for_site_request("enwiki", &titles),
        vec![
            ("action", "wbgetentities".to_string()),
            ("sites", "enwiki".to_string()),
            ("titles", "A|B".to_string()),
            ("props", "sitelinks".to_string()),
            ("sitefilter", "enwiki|jawiki".to_string()),
            ("formatversion", "2".to_string()),
        ]
    );
    assert_eq!(
        ja_titles_for_ids_request(&titles),
        vec![
            ("action", "wbgetentities".to_string()),
            ("ids", "A|B".to_string()),
            ("props", "sitelinks".to_string()),
            ("sitefilter", "jawiki".to_string()),
            ("formatversion", "2".to_string()),
        ]
    );
    assert_eq!(
        known_sites_request(),
        vec![
            ("action", "paraminfo".to_string()),
            ("modules", "wbgetentities".to_string()),
            ("formatversion", "2".to_string()),
        ]
    );
}
