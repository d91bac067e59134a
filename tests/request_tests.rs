use escli::request::{index_body, mapping_pair, search_body};

#[test]
fn mapping_splits_at_colons() {
    assert_eq!(mapping_pair("title:text"), Some(("title".to_string(), "text".to_string())));
    assert_eq!(mapping_pair("a:b:c"), Some(("a".to_string(), "b".to_string())));
    assert_eq!(mapping_pair("a:"), Some(("a".to_string(), String::new())));
    assert_eq!(mapping_pair("nocolon"), None);
}

#[test]
fn index_body_holds_field_types() {
    let body = index_body(&vec!["title:text".to_string(), "year:integer".to_string(), "title:keyword".to_string()]).unwrap();
    assert_eq!(
        body.to_text(),
        "{\"mappings\":{\"properties\":{\"title\":{\"type\":\"keyword\"},\"year\":{\"type\":\"integer\"}}}}"
    );
    assert_eq!(index_body(&vec![]).unwrap().to_text(), "{\"mappings\":{\"properties\":{}}}");
    assert!(index_body(&vec!["ok:text".to_string(), "broken".to_string()]).is_none());
}

#[test]
fn search_body_matches_all_without_query() {
    assert_eq!(search_body(&None, None).to_text(), "{\"query\":{\"match_all\":{}}}");
    assert_eq!(search_body(&None, Some(5)).to_text(), "{\"query\":{\"match_all\":{}},\"size\":5}");
    assert_eq!(search_body(&Some("name:ann".to_string()), Some(20)).to_text(), "{\"size\":20}");
    assert_eq!(search_body(&Some("x".to_string()), None).to_text(), "{}");
}
