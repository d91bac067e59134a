use escli::document::Document;
use escli::index::{expand_wildcards, index_list_rows, render_index_list, IndexDetail, Wildcard};
use escli::json::JsonValue;

fn entry(fields: Vec<(&str, &str)>) -> Document {
    let mut d = Document::new();
    for (k, v) in fields {
        d.set(k.to_string(), JsonValue::String(v.to_string()));
    }
    d
}

fn detail(name: &str, health: &str, status: &str, docs: Option<u64>, size: Option<u64>) -> IndexDetail {
    IndexDetail {
        health: health.to_string(),
        status: status.to_string(),
        name: name.to_string(),
        uuid: format!("uuid-{name}"),
        docs_count: docs,
        docs_deleted: None,
        store_size: None,
        dataset_size: size,
    }
}

#[test]
fn wildcards_follow_the_flags() {
    assert_eq!(expand_wildcards(false, false, false), vec![Wildcard::Open]);
    assert_eq!(expand_wildcards(true, false, false), vec![Wildcard::All]);
    assert_eq!(expand_wildcards(false, true, false), vec![Wildcard::Open]);
    assert_eq!(expand_wildcards(false, false, true), vec![Wildcard::Closed]);
    assert_eq!(expand_wildcards(false, true, true), vec![Wildcard::Open, Wildcard::Closed]);
    assert_eq!(expand_wildcards(true, true, false), vec![Wildcard::Open, Wildcard::Hidden]);
    assert_eq!(expand_wildcards(true, false, true), vec![Wildcard::Closed, Wildcard::Hidden]);
    assert_eq!(expand_wildcards(true, true, true), vec![Wildcard::Open, Wildcard::Closed, Wildcard::Hidden]);
}

#[test]
fn entry_texts_and_numbers_are_decoded() {
    let e = entry(vec![
        ("health", "green"),
        ("status", "open"),
        ("index", "people"),
        ("uuid", "u1"),
        ("docs.count", "12"),
        ("docs.deleted", "+3"),
        ("store.size", "-1"),
        ("dataset.size", "18446744073709551616"),
    ]);
    let d = IndexDetail::from_entry(&e);
    assert_eq!(d.health, "green");
    assert_eq!(d.status, "open");
    assert_eq!(d.name, "people");
    assert_eq!(d.uuid, "u1");
    assert_eq!(d.docs_count, Some(12));
    assert_eq!(d.docs_deleted, Some(3));
    assert_eq!(d.store_size, None);
    assert_eq!(d.dataset_size, None);
}

#[test]
fn missing_entry_fields_are_unknown_or_absent() {
    let mut e = Document::new();
    e.set("docs.count".to_string(), JsonValue::Number("7".to_string()));
    let d = IndexDetail::from_entry(&e);
    assert_eq!(d.health, "unknown");
    assert_eq!(d.name, "unknown");
    assert_eq!(d.docs_count, None);
    assert_eq!(d.dataset_size, None);
}

#[test]
fn listing_hides_dot_names_unless_all() {
    let details = vec![
        detail("people", "green", "open", Some(12), Some(1500)),
        detail(".internal", "yellow", "open", None, None),
        detail("old", "red", "closed", Some(0), Some(0)),
        detail("odd", "grey", "open", None, Some(10000)),
    ];
    let rows = index_list_rows(&details, false);
    assert_eq!(rows.len(), 3);
    assert_eq!(
        rows[0],
        vec![
            "\u{1F7E2}".to_string(),
            "uuid-people".to_string(),
            "people".to_string(),
            "12 docs".to_string(),
            "1.5KB".to_string(),
            String::new(),
        ]
    );
    assert_eq!(rows[1][0], "\u{1F534}");
    assert_eq!(rows[1][5], "\u{1F512}");
    assert_eq!(rows[1][4], "0B");
    assert_eq!(rows[2][0], "\u{26AB}");
    assert_eq!(rows[2][3], "0 docs");
    assert_eq!(rows[2][4], "10KB");
    let all = index_list_rows(&details, true);
    assert_eq!(all.len(), 4);
    assert_eq!(all[1][0], "\u{1F7E1}");
}

#[test]
fn listing_renders_only_when_something_is_listed() {
    let hidden = vec![detail(".only", "green", "open", None, None)];
    assert!(render_index_list(&hidden, false).is_none());
    let text = render_index_list(&hidden, true).unwrap();
    assert!(text.contains(".only"));
    assert!(text.contains("0 docs"));
}
