use wikipedia_sz_bot::json::Json;

fn text(value: &str) -> Json {
    Json::Text(value.to_string())
}

#[test]
fn indexes_values() {
    let value = Json::Object(vec![
        ("a".to_string(), Json::Array(vec![text("x"), Json::Null])),
        ("b".to_string(), Json::Bool(true)),
    ]);
    assert_eq!(value.get("a").at(0).as_str(), Some("x"));
    assert_eq!(value.get("a").at(1), &Json::Null);
    assert_eq!(value.get("a").at(2), &Json::Null);
    assert_eq!(value.get("c").get("d").at(0), &Json::Null);
    assert!(value.get("b").is_true());
    assert!(!value.get("a").is_true());
    assert_eq!(value.get("a").items().len(), 2);
    assert!(value.get("b").items().is_empty());
    assert_eq!(value.entries().len(), 2);
    assert!(value.get("a").entries().is_empty());
    assert!(value.get("a").as_array().is_some());
    assert!(value.as_array().is_none());
}

#[test]
fn reads_numbers() {
    assert_eq!(Json::Unsigned(u64::MAX).as_u64(), Some(u64::MAX));
    assert_eq!(Json::Unsigned(u64::MAX).as_i64(), None);
    assert_eq!(Json::Unsigned(7).as_i64(), Some(7));
    assert_eq!(Json::Negative(-7).as_i64(), Some(-7));
    assert_eq!(Json::Negative(-7).as_u64(), None);
    assert_eq!(Json::Fraction.as_u64(), None);
    assert_eq!(Json::Fraction.as_i64(), None);
    assert_eq!(text("7").as_u64(), None);
}

#[test]
fn compares_strings() {
    assert!(text("sites").is_str("sites"));
    assert!(!text("site").is_str("sites"));
    assert!(!Json::Null.is_str(""));
    assert_eq!(Json::Bool(true).as_str(), None);
}
