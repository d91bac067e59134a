use escli::document::Document;
use escli::json::JsonValue;
use escli::table::Table;

fn doc(fields: Vec<(&str, JsonValue)>) -> Document {
    let mut d = Document::new();
    for (k, v) in fields {
        d.set(k.to_string(), v);
    }
    d
}

fn num(t: &str) -> JsonValue {
    JsonValue::Number(t.to_string())
}

fn text(t: &str) -> JsonValue {
    JsonValue::String(t.to_string())
}

#[test]
fn single_number_field_gives_one_row_one_column() {
    let mut table = Table::new();
    table.push_document(&doc(vec![("n", num("5"))]));
    assert_eq!(table.column_names(), vec!["n".to_string()]);
    assert_eq!(table.cells(), vec![vec!["5".to_string()]]);
    assert_eq!(table.count_rows(), 1);
}

#[test]
fn string_cells_are_not_quoted_and_others_are_json() {
    let mut table = Table::new();
    let nested = JsonValue::Object(vec![("a".to_string(), num("1"))]);
    let list = JsonValue::Array(vec![num("1"), text("x")]);
    table.push_document(&doc(vec![
        ("s", text("hello")),
        ("b", JsonValue::Bool(true)),
        ("z", JsonValue::Null),
        ("o", nested),
        ("l", list),
    ]));
    assert_eq!(
        table.cells(),
        vec![vec![
            "hello".to_string(),
            "true".to_string(),
            "null".to_string(),
            "{\"a\":1}".to_string(),
            "[1,\"x\"]".to_string(),
        ]]
    );
}

#[test]
fn columns_are_discovered_in_arrival_order_and_backfilled() {
    let mut table = Table::new();
    table.push_document(&doc(vec![("a", num("1")), ("b", num("2"))]));
    assert_eq!(table.count_columns(), 2);
    table.push_document(&doc(vec![("c", text("x")), ("a", num("3"))]));
    assert_eq!(table.count_columns(), 3);
    table.push_document(&doc(vec![("b", num("4"))]));
    assert_eq!(table.count_columns(), 3);
    assert_eq!(table.column_names(), vec!["a".to_string(), "b".to_string(), "c".to_string()]);
    assert_eq!(
        table.cells(),
        vec![
            vec!["1".to_string(), "2".to_string(), "null".to_string()],
            vec!["3".to_string(), "null".to_string(), "x".to_string()],
            vec!["null".to_string(), "4".to_string(), "null".to_string()],
        ]
    );
}

#[test]
fn empty_document_adds_a_row_of_nulls() {
    let mut table = Table::new();
    table.push_document(&doc(vec![("a", num("1"))]));
    table.push_document(&Document::new());
    assert_eq!(table.cells(), vec![vec!["1".to_string()], vec!["null".to_string()]]);
}

#[test]
fn render_without_rows_says_so() {
    let table = Table::new();
    assert_eq!(table.render(), "No rows");
}

#[test]
fn render_lays_out_header_and_rows() {
    let mut table = Table::new();
    table.push_document(&doc(vec![("n", num("5"))]));
    let first = table.render();
    assert_eq!(first, "┌───┐\n│ n │\n├───┤\n│ 5 │\n└───┘");
    assert_eq!(table.render(), first);
    assert_eq!(table.count_rows(), 1);
}

#[test]
fn string_inside_structure_is_escaped() {
    let v = JsonValue::Array(vec![text("a\"b")]);
    assert_eq!(v.to_text(), "[\"a\\\"b\"]");
    assert_eq!(text("a\"b").cell_text(), "a\"b");
}

#[test]
fn setting_a_field_again_replaces_it_in_place() {
    let mut d = doc(vec![("a", num("1")), ("b", num("2"))]);
    d.set("a".to_string(), num("9"));
    assert_eq!(d.len(), 2);
    assert_eq!(d.key_at(0), "a");
    match d.get(&"a".to_string()) {
        Some(JsonValue::Number(t)) => assert_eq!(t, "9"),
        _ => panic!("field a should be the number 9"),
    }
    assert!(d.get(&"c".to_string()).is_none());
}

#[test]
fn control_characters_are_escaped_in_structures() {
    let v = JsonValue::Array(vec![text("a\tb\u{1}\\")]);
    assert_eq!(v.to_text(), "[\"a\\tb\\u0001\\\\\"]");
}
