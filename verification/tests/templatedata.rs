use wikipedia_sz_bot::api::{Failure, QueryPageItem};
use wikipedia_sz_bot::moment::Moment;
use wikipedia_sz_bot::tasks::templatedata::{
    build_report, candidate_count_from, format_count, format_main_namespace_count, keep_top,
    record_usage, render_report, sort_by_main_namespace_count, update, without_templatedata,
    Candidates, CANDIDATE_COUNT, TARGET_COUNT,
};
use wikipedia_sz_bot::titles::TitleSet;

fn sample_template(title: &str, value: u64) -> QueryPageItem {
    QueryPageItem {
        title: title.to_string(),
        value,
        main_namespace_transclusions: 0,
        main_namespace_truncated: false,
    }
}

#[test]
fn templatedata_formats_counts() {
    assert_eq!(format_count(0), "0");
    assert_eq!(format_count(999), "999");
    assert_eq!(format_count(1000), "1,000");
    assert_eq!(format_count(1_013_254), "1,013,254");
}

#[test]
fn templatedata_builds_table() {
    let templates = vec![
        sample_template("Template:Reflist", 1_013_254),
        sample_template("Template:Infobox", 804_377),
    ];
    let updated = Moment::from_rfc3339("2026-09-02T12:34:56Z").unwrap();
    let wikitext = build_report(&templates, updated);

    assert!(wikitext.contains("上位2件"));
    assert!(wikitext.contains("最終更新: 2026-09-02 12:34 (UTC)"));
    assert!(wikitext.contains("| 1\n| [[Template:Reflist]]\n| 1,013,254\n| 0"));
    assert!(wikitext.contains("| 2\n| [[Template:Infobox]]\n| 804,377\n| 0"));
    assert!(wikitext.contains("標準名前空間での直接使用数"));
    assert!(wikitext.ends_with("|}\n"));
}

#[test]
fn formats_capped_main_namespace_count() {
    let mut template = sample_template("Template:Infobox", 804_377);
    template.main_namespace_transclusions = 500;
    template.main_namespace_truncated = true;
    assert_eq!(format_main_namespace_count(&template), "500+");

    let exact = sample_template("Template:Reflist", 1_013_254);
    assert_eq!(format_main_namespace_count(&exact), "0");
}

#[test]
fn sorts_by_main_namespace_count() {
    let mut a = sample_template("Template:A", 100);
    a.main_namespace_transclusions = 10;
    let mut b = sample_template("Template:B", 200);
    b.main_namespace_transclusions = 30;
    let mut c = sample_template("Template:C", 300);
    c.main_namespace_transclusions = 20;

    let mut templates = vec![a, c, b];
    sort_by_main_namespace_count(&mut templates);

    assert_eq!(templates[0].title, "Template:B");
    assert_eq!(templates[1].title, "Template:C");
    assert_eq!(templates[2].title, "Template:A");
}

#[test]
fn breaks_ties_by_total_count() {
    let mut a = sample_template("Template:A", 100);
    a.main_namespace_transclusions = 50;
    let mut b = sample_template("Template:B", 200);
    b.main_namespace_transclusions = 50;

    let mut templates = vec![a, b];
    sort_by_main_namespace_count(&mut templates);

    assert_eq!(templates[0].title, "Template:B");
    assert_eq!(templates[1].title, "Template:A");
}

#[test]
fn candidate_count_defaults_and_parses() {
    assert_eq!(candidate_count_from(None), CANDIDATE_COUNT);
    assert_eq!(candidate_count_from(Some("10".to_string())), 10);
    assert_eq!(
        candidate_count_from(Some("not-a-number".to_string())),
        CANDIDATE_COUNT
    );
}

#[test]
fn renders_the_whole_report() {
    let mut template = sample_template("Template:A", 1000);
    template.main_namespace_transclusions = 500;
    template.main_namespace_truncated = true;
    assert_eq!(
        render_report(&[template], "2026-01-02 03:04"),
        "使用数が多いにもかかわらずTemplateDataが存在しないテンプレートの上位1件です。\n\
         \n\
         最終更新: 2026-01-02 03:04 (UTC)\n\
         \n\
         {| class=\"wikitable sortable\"\n\
         |-\n\
         ! 順位\n\
         ! テンプレート\n\
         ! 使用数\n\
         ! 標準名前空間での直接使用数\n\
         |-\n\
         | 1\n\
         | [[Template:A]]\n\
         | 1,000\n\
         | 500+\n\
         |}\n"
    );
}

#[test]
fn keeps_the_order_of_equal_templates() {
    let mut templates = vec![
        sample_template("a", 5),
        sample_template("b", 7),
        sample_template("c", 5),
        sample_template("d", 7),
    ];
    sort_by_main_namespace_count(&mut templates);
    let titles: Vec<&str> = templates.iter().map(|t| t.title.as_str()).collect();
    assert_eq!(titles, ["b", "d", "a", "c"]);

    let once = templates.clone();
    sort_by_main_namespace_count(&mut templates);
    assert_eq!(templates, once);
}

#[test]
fn keeps_the_top_templates() {
    let mut templates: Vec<QueryPageItem> = (0..60)
        .map(|n| sample_template(&format!("t{n}"), n))
        .collect();
    keep_top(&mut templates);
    assert_eq!(templates.len(), TARGET_COUNT);
    assert_eq!(templates[0].title, "t59");
    assert_eq!(templates[49].title, "t10");

    let mut few = vec![sample_template("x", 1)];
    keep_top(&mut few);
    assert_eq!(few, vec![sample_template("x", 1)]);
}

#[test]
fn collects_candidates_page_by_page() {
    let (mut candidates, offset) = Candidates::new(3);
    assert_eq!(offset, Some(0));
    let page = [sample_template("a", 4), sample_template("b", 3)];
    assert_eq!(candidates.add_page(&page, Some(500)), Some(500));
    let page = [sample_template("c", 2), sample_template("d", 1)];
    assert_eq!(candidates.add_page(&page, Some(1000)), None);
    let titles: Vec<&str> = candidates.items.iter().map(|t| t.title.as_str()).collect();
    assert_eq!(titles, ["a", "b", "c"]);
}

#[test]
fn stops_collecting_where_the_query_page_ends() {
    let (mut candidates, _) = Candidates::new(3);
    assert_eq!(candidates.add_page(&[sample_template("a", 4)], None), None);
    assert_eq!(candidates.items.len(), 1);

    let (mut candidates, _) = Candidates::new(3);
    assert_eq!(candidates.add_page(&[], Some(500)), None);

    let (_, offset) = Candidates::new(0);
    assert_eq!(offset, None);
}

#[test]
fn drops_templates_with_templatedata() {
    let mut with = TitleSet::new();
    with.insert("b".to_string());
    let templates = [
        sample_template("a", 3),
        sample_template("b", 2),
        sample_template("c", 1),
    ];
    let kept = without_templatedata(&templates, &with);
    assert_eq!(kept, vec![sample_template("a", 3), sample_template("c", 1)]);
}

#[test]
fn records_usage() {
    let mut templates = vec![sample_template("a", 3), sample_template("b", 2)];
    record_usage(&mut templates, 1, Some((9, true)));
    record_usage(&mut templates, 0, None);
    assert_eq!(templates[0], sample_template("a", 3));
    assert_eq!(templates[1].main_namespace_transclusions, 9);
    assert!(templates[1].main_namespace_truncated);
}

#[test]
fn refuses_an_empty_report() {
    let updated = Moment::from_rfc3339("2026-09-02T12:34:56Z").unwrap();
    assert_eq!(
        update(&[], updated),
        Err(Failure::Unknown(
            "no templates without TemplateData found".to_string()
        ))
    );
    let templates = [sample_template("a", 3)];
    assert_eq!(
        update(&templates, updated),
        Ok(build_report(&templates, updated))
    );
}
