use wikipedia_sz_bot::tasks::ill::parse::{find_calls, IllCall, LangTarget};

fn no_calls() -> Vec<IllCall> {
    Vec::new()
}

fn target(lang: &str, title: &str) -> LangTarget {
    LangTarget {
        lang: lang.to_string(),
        title: title.to_string(),
    }
}

#[test]
fn parses_basic_call() {
    let calls = find_calls("前 {{仮リンク|アンペールの法則|en|Ampère's circuital law}} 後");
    assert_eq!(calls.len(), 1);
    assert_eq!(calls[0].ja_title, "アンペールの法則");
    assert_eq!(
        calls[0].targets,
        vec![target("en", "Ampère's circuital law")]
    );
    assert!(calls[0].raw.starts_with("{{仮リンク|"));
}

#[test]
fn parses_redirect_names() {
    for name in ["Ill", "Ill2", "Link-interwiki", "Interlanguage link"] {
        let calls = find_calls(&format!("{{{{{name}|foo|en|Foo}}}}"));
        assert_eq!(calls.len(), 1, "{name} should be recognised");
        assert_eq!(calls[0].ja_title, "foo");
    }
}

#[test]
fn parses_multiple_pairs() {
    let calls = find_calls("{{仮リンク|foo|en|Foo|de|Foo (Begriff)|fr|Foo (fr)}}");
    assert_eq!(
        calls[0].targets,
        vec![
            target("en", "Foo"),
            target("de", "Foo (Begriff)"),
            target("fr", "Foo (fr)"),
        ]
    );
}

#[test]
fn keeps_only_first_pair_for_multi_templates() {
    let calls = find_calls("{{Illm|foo|en|Foo|de|Foo (de)}}");
    assert_eq!(calls[0].targets, vec![target("en", "Foo")]);
}

#[test]
fn handles_named_parameters() {
    let calls = find_calls("{{仮リンク|foo|en|Foo|label=ふー|preserve=1}}");
    assert_eq!(calls[0].ja_title, "foo");
    assert_eq!(calls[0].targets, vec![target("en", "Foo")]);
}

#[test]
fn handles_numeric_named_parameters() {
    let calls = find_calls("{{仮リンク|3=Foo|1=foo|2=en}}");
    assert_eq!(calls[0].ja_title, "foo");
    assert_eq!(calls[0].targets, vec![target("en", "Foo")]);
}

#[test]
fn trims_whitespace_and_underscores() {
    let calls = find_calls("{{ template:仮_リンク | foo | en | Foo }}");
    assert_eq!(calls, no_calls(), "an unknown name must not match");

    let calls = find_calls("{{ Template:仮リンク | foo | en | Foo }}");
    assert_eq!(calls[0].ja_title, "foo");
    assert_eq!(calls[0].targets, vec![target("en", "Foo")]);
}

#[test]
fn finds_calls_nested_in_other_templates() {
    let calls =
        find_calls("{{Infobox|name={{仮リンク|foo|en|Foo}}|other={{仮リンク|bar|de|Bar}}}}");
    assert_eq!(calls.len(), 2);
    assert_eq!(calls[0].ja_title, "foo");
    assert_eq!(calls[1].ja_title, "bar");
}

#[test]
fn keeps_nested_wikilink_labels_intact() {
    let calls = find_calls("{{仮リンク|foo|en|Foo|label=[[bar|baz]]}}");
    assert_eq!(calls[0].targets, vec![target("en", "Foo")]);
}

#[test]
fn ignores_calls_without_targets() {
    assert_eq!(find_calls("{{仮リンク|foo}}"), no_calls());
    assert_eq!(find_calls("{{仮リンク|foo|en}}"), no_calls());
    assert_eq!(find_calls("{{仮リンク||en|Foo}}"), no_calls());
}

#[test]
fn ignores_other_templates() {
    assert_eq!(find_calls("{{Reflist}}"), no_calls());
    assert_eq!(find_calls("{{仮リンク2|foo|en|Foo}}"), no_calls());
    assert_eq!(find_calls("plain [[foo]] text"), no_calls());
}

#[test]
fn ignores_unterminated_calls() {
    assert_eq!(find_calls("{{仮リンク|foo|en|Foo"), no_calls());
}

#[test]
fn accepts_wikidata_pseudo_language() {
    let calls = find_calls("{{仮リンク|foo|wikidata|Q42}}");
    assert_eq!(calls[0].targets, vec![target("wikidata", "Q42")]);
}

#[test]
fn keeps_calls_as_written() {
    let raw = "{{仮リンク | foo | en | Foo | label = [[a|b]] }}";
    let calls = find_calls(&format!("x{raw}y{raw}"));
    assert_eq!(calls.len(), 2);
    assert_eq!(calls[0].raw, raw);
    assert_eq!(calls[1], calls[0].clone());
}

#[test]
fn recognises_every_name() {
    for name in [
        "仮リンク",
        "Ill",
        "ill",
        "Ill2",
        "Illm",
        "Link-interwiki",
        "Interlanguage link",
        "interlanguage_link",
        "Interlanguage link multi",
        "テンプレート:仮リンク",
        "Template: 仮リンク",
    ] {
        let calls = find_calls(&format!("{{{{{name}|foo|en|Foo}}}}"));
        assert_eq!(calls.len(), 1, "{name}");
    }
}

#[test]
fn holds_at_most_four_pairs() {
    let calls = find_calls("{{仮リンク|x|a|A|b|B|c|C|d|D|e|E}}");
    assert_eq!(
        calls[0].targets,
        vec![
            target("a", "A"),
            target("b", "B"),
            target("c", "C"),
            target("d", "D"),
        ]
    );
}

#[test]
fn finds_nothing_in_empty_texts() {
    assert_eq!(find_calls(""), no_calls());
    assert_eq!(find_calls("{"), no_calls());
    assert_eq!(find_calls("{{"), no_calls());
    assert_eq!(find_calls("{{}}"), no_calls());
}

#[test]
fn surrounding_text_changes_no_call() {
    let wikitext = "{{x|{{仮リンク|甲|en|A}}}} {{ill|乙|de|B";
    let found = find_calls(wikitext);
    assert_eq!(found.len(), 1);
    assert_eq!(find_calls(&format!("前 [[x]] | {wikitext}")), found);
    assert_eq!(find_calls(&format!("{wikitext} 後 [[x]] |")), found);
}

#[test]
fn calls_are_found_again_in_their_own_text() {
    for call in find_calls("{{x|{{ill|[[甲|乙]]|en|A}}}} {{仮リンク|丙{{!}}丁|de|B|en|C}}") {
        assert_eq!(find_calls(&call.raw), [call]);
    }
}
