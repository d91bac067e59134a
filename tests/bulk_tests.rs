use escli::bulk::{load_documents, RawBulkSummary, RawBulkSummaryAction, SourceFile};
use escli::error::ErrorType;
use escli::json::JsonValue;

fn file(name: &str, text: &str) -> SourceFile {
    SourceFile { name: name.to_string(), contents: text.as_bytes().to_vec() }
}

fn action(result: &str, n: i32) -> RawBulkSummaryAction {
    RawBulkSummaryAction {
        _index: "people".to_string(),
        _id: format!("id{n}"),
        _version: 1,
        result: result.to_string(),
        _seq_no: n,
    }
}

#[test]
fn two_files_give_five_documents_and_tallies_sum_to_five() {
    let files = vec![
        file("a.csv", "name,age\nann,31\nbob,42\ncid,27\n"),
        file("b.csv", "name,age\ndee,19\neve,55\n"),
    ];
    let docs = load_documents(&files).ok().unwrap();
    assert_eq!(docs.len(), 5);
    let summary = RawBulkSummary {
        items: (0..5)
            .map(|n| vec![("index".to_string(), action(if n < 4 { "created" } else { "updated" }, n))])
            .collect(),
    };
    let counts = summary.summarize();
    assert_eq!(counts, vec![("created".to_string(), 4), ("updated".to_string(), 1)]);
    assert_eq!(counts.iter().map(|c| c.1).sum::<usize>(), 5);
}

#[test]
fn wide_row_four_aborts_the_whole_load() {
    let files = vec![
        file("good.csv", "a,b\n1,2\n"),
        file("bad.csv", "a,b\n1,2\n3,4\n5,6,7\n8,9\n"),
    ];
    let e = load_documents(&files).err().unwrap();
    assert_eq!(e.subtype, ErrorType::MalformedRowError(4));
    assert_eq!(e.description, "row 4 of bad.csv has more fields than its header");
}

#[test]
fn short_row_leaves_trailing_fields_absent() {
    let docs = load_documents(&vec![file("s.csv", "a,b,c\n1,x\n")]).ok().unwrap();
    assert_eq!(docs.len(), 1);
    let d = &docs[0];
    assert_eq!(d.len(), 2);
    assert!(d.get(&"c".to_string()).is_none());
    match d.get(&"b".to_string()) {
        Some(JsonValue::String(s)) => assert_eq!(s, "x"),
        _ => panic!("b should be the text x"),
    }
}

#[test]
fn fields_take_the_types_csv_infers() {
    let docs = load_documents(&vec![file("t.csv", "f,i,n,x,e\ntrue,42,-1.5,hello,\n")]).ok().unwrap();
    let d = &docs[0];
    let get = |k: &str| d.get(&k.to_string()).unwrap().to_text();
    assert_eq!(get("f"), "true");
    assert_eq!(get("i"), "42");
    assert_eq!(get("n"), "-1.5");
    assert_eq!(get("x"), "\"hello\"");
    assert_eq!(get("e"), "\"\"");
}

#[test]
fn header_only_and_no_files_give_no_documents() {
    assert_eq!(load_documents(&vec![file("h.csv", "a,b\n")]).ok().unwrap().len(), 0);
    assert_eq!(load_documents(&vec![]).ok().unwrap().len(), 0);
}

#[test]
fn undecodable_file_is_a_transport_error() {
    let bad = SourceFile { name: "bin.csv".to_string(), contents: vec![b'a', b'\n', 0xff, 0xfe, b'\n'] };
    let e = load_documents(&vec![bad]).err().unwrap();
    assert_eq!(e.subtype, ErrorType::ClientError);
}

#[test]
fn tally_keeps_first_seen_order() {
    let summary = RawBulkSummary {
        items: vec![
            vec![("index".to_string(), action("updated", 0))],
            vec![("index".to_string(), action("created", 1))],
            vec![("index".to_string(), action("updated", 2))],
        ],
    };
    assert_eq!(summary.summarize(), vec![("updated".to_string(), 2), ("created".to_string(), 1)]);
    assert_eq!(RawBulkSummary { items: vec![] }.summarize(), vec![]);
}

#[test]
fn unrepresentable_floats_load_as_null() {
    let docs = load_documents(&vec![file("f.csv", "a,b\nNaN,inf\n")]).ok().unwrap();
    let d = &docs[0];
    assert_eq!(d.get(&"a".to_string()).unwrap().to_text(), "null");
    assert_eq!(d.get(&"b".to_string()).unwrap().to_text(), "null");
}

#[test]
fn integer_beyond_64_bits_fails_the_load() {
    let files = vec![file("n.csv", "a\n18446744073709551616\n")];
    let e = load_documents(&files).err().unwrap();
    assert_eq!(e.subtype, ErrorType::ClientError);
}
