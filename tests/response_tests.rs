use escli::response::{ping_continues, summary_lines, RawCreated, RawDeleted, RawInfo, RawInfoVersion};
use escli::text::{decimal_text, parse_u64};

#[test]
fn created_and_deleted_report_acknowledgement() {
    let yes = RawCreated { acknowledged: true, index: "people".to_string() };
    assert_eq!(yes.message(), "Created index people (acknowledged)");
    let no = RawCreated { acknowledged: false, index: "people".to_string() };
    assert_eq!(no.message(), "Created index people (not acknowledged)");
    assert_eq!(RawDeleted { acknowledged: true }.message(), "Deleted index (acknowledged)");
    assert_eq!(RawDeleted { acknowledged: false }.message(), "Deleted index (not acknowledged)");
}

#[test]
fn bulk_report_has_a_line_per_tag() {
    let lines = summary_lines(&vec![("created".to_string(), 4), ("updated".to_string(), 1)]);
    assert_eq!(lines, vec!["Successfully created 4 documents".to_string(), "Successfully updated 1 documents".to_string()]);
}

#[test]
fn ping_stops_after_count() {
    assert!(ping_continues(1, None));
    assert!(ping_continues(2, Some(3)));
    assert!(!ping_continues(3, Some(3)));
    assert!(!ping_continues(1, Some(0)));
}

#[test]
fn info_report_lists_every_detail() {
    let info = RawInfo {
        name: "node-1".to_string(),
        cluster_name: "docker-cluster".to_string(),
        cluster_uuid: "cu".to_string(),
        version: RawInfoVersion {
            number: "8.15.0".to_string(),
            build_flavor: "default".to_string(),
            build_type: "docker".to_string(),
            build_hash: "h".to_string(),
            build_date: "2024-08-05".to_string(),
            build_snapshot: false,
            lucene_version: "9.11.1".to_string(),
            minimum_wire_compatibility_version: "7.17.0".to_string(),
            minimum_index_compatibility_version: "7.0.0".to_string(),
        },
        tagline: "You Know, for Search".to_string(),
    };
    let lines = info.lines();
    assert_eq!(lines.len(), 14);
    assert_eq!(lines[0], "Name: node-1");
    assert_eq!(lines[3], "Version:");
    assert_eq!(lines[9], "  Build Snapshot: false");
    assert_eq!(lines[13], "Tagline: You Know, for Search");
}

#[test]
fn decimal_text_and_parsing_agree() {
    assert_eq!(decimal_text(0), "0");
    assert_eq!(decimal_text(404), "404");
    assert_eq!(decimal_text(u64::MAX), "18446744073709551615");
    assert_eq!(parse_u64("18446744073709551615"), Some(u64::MAX));
    assert_eq!(parse_u64("18446744073709551616"), None);
    assert_eq!(parse_u64(""), None);
    assert_eq!(parse_u64("+"), None);
    assert_eq!(parse_u64("007"), Some(7));
    assert_eq!(parse_u64("1a"), None);
}
