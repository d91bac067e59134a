//! Bulk loading: delimited files with a header row decoded into documents,
//! and the tally of per-document write outcomes.
use vstd::prelude::*;
use crate::document::{set_entry, Document};
use crate::error::{Error, ErrorType};
use crate::json::JsonValue;
use crate::table::{rows_view, texts_view};
use crate::text::{decimal, decimal_text};

verus! {

/// The records of a delimited text, each as its fields, or nothing when the
/// text cannot be read as delimited UTF-8.
pub uninterp spec fn csv_records(bytes: Seq<u8>) -> Option<Seq<Seq<Seq<char>>>>;

/// The value that delimited-file decoding infers for a field's text, or
/// nothing when the field cannot be decoded.
pub uninterp spec fn csv_field_value(text: Seq<char>) -> Option<JsonValue>;

/// Relies on `csv::ReaderBuilder` (no header handling, records of any length)
/// and `StringRecord`: the records of the text, each as its fields.
#[verifier::external_body]
fn read_records(bytes: &Vec<u8>) -> (r: Result<Vec<Vec<String>>, String>)
    ensures
        match r {
            Ok(records) => csv_records(bytes@) == Some(rows_view(records@)),
            Err(_) => csv_records(bytes@) is None,
        },
{
    let mut reader = csv::ReaderBuilder::new().has_headers(false).flexible(true).from_reader(
        bytes.as_slice(),
    );
    reader.records().map(|rec| rec.map(|r| r.iter().map(String::from).collect())).collect::<
        Result<Vec<Vec<String>>, csv::Error>,
    >().map_err(|e| e.to_string())
}

/// Relies on `csv::StringRecord::deserialize` into a `serde_json::Value`: the
/// type csv infers for one field (`true` and `false` are booleans, integers
/// and floats are numbers, a float JSON cannot hold is null, other text is a
/// string), or the decoding error, as for an integer that needs more than 64
/// bits but fits in 128. csv infers only such single values, never a list or
/// a mapping.
#[verifier::external_body]
fn infer_field(text: &String) -> (r: Result<JsonValue, String>)
    ensures
        match r {
            Ok(v) => csv_field_value(text@) == Some(v),
            Err(_) => csv_field_value(text@) is None,
        },
        text@ == "true"@ ==> (r is Ok && r->Ok_0 == JsonValue::Bool(true)),
        text@ == "false"@ ==> (r is Ok && r->Ok_0 == JsonValue::Bool(false)),
{
    match csv::StringRecord::from(vec![text.as_str()]).deserialize::<serde_json::Value>(None) {
        Ok(serde_json::Value::Null) => Ok(JsonValue::Null),
        Ok(serde_json::Value::Bool(b)) => Ok(JsonValue::Bool(b)),
        Ok(serde_json::Value::Number(n)) => Ok(JsonValue::Number(n.to_string())),
        Ok(serde_json::Value::String(s)) => Ok(JsonValue::String(s)),
        Ok(serde_json::Value::Array(_)) => Err(String::from("a field decoded as a list")),
        Ok(serde_json::Value::Object(_)) => Err(String::from("a field decoded as a mapping")),
        Err(e) => Err(e.to_string()),
    }
}

/// A source file: its name, and its contents.
#[derive(Debug)]
pub struct SourceFile {
    pub name: String,
    pub contents: Vec<u8>,
}

/// The document of a data row under a header: the i-th field is the value of
/// the i-th header name; names past the end of a short row are absent.
/// Nothing when a field cannot be decoded.
pub open spec fn row_entries(header: Seq<Seq<char>>, row: Seq<Seq<char>>) -> Option<Seq<(Seq<char>, JsonValue)>>
    decreases row.len(),
{
    if row.len() == 0 {
        Some(Seq::empty())
    } else {
        match row_entries(header, row.drop_last()) {
            None => None,
            Some(e) => match csv_field_value(row.last()) {
                None => None,
                Some(v) => Some(set_entry(e, header[row.len() - 1], v)),
            },
        }
    }
}

/// Whether record `i` is a data row with more fields than the header.
pub open spec fn is_malformed(records: Seq<Seq<Seq<char>>>, i: int) -> bool {
    1 <= i < records.len() && records[i].len() > records[0].len()
}

/// The position of the first data row with more fields than the header.
pub open spec fn first_malformed(records: Seq<Seq<Seq<char>>>) -> Option<int> {
    if exists|i: int| is_malformed(records, i) {
        Some(choose|i: int| is_malformed(records, i) && forall|j: int| 1 <= j < i ==> !is_malformed(records, j))
    } else {
        None
    }
}

/// Whether the data row at record `i` has a field that cannot be decoded.
pub open spec fn is_undecodable(records: Seq<Seq<Seq<char>>>, i: int) -> bool {
    1 <= i < records.len() && row_entries(records[0], records[i]) is None
}

/// The documents of a file's records, one per record after the header; nothing
/// when a field of any of them cannot be decoded.
pub open spec fn file_documents(records: Seq<Seq<Seq<char>>>) -> Option<Seq<Seq<(Seq<char>, JsonValue)>>> {
    if records.len() == 0 {
        Some(Seq::empty())
    } else if exists|i: int| is_undecodable(records, i) {
        None
    } else {
        Some(Seq::new((records.len() - 1) as nat, |i: int| row_entries(records[0], records[i + 1])->0))
    }
}

/// What loading a sequence of files amounts to.
pub ghost enum LoadView {
    /// The documents of all files, in order.
    Loaded(Seq<Seq<(Seq<char>, JsonValue)>>),
    /// The file at this position could not be read as delimited text, or a
    /// field of it could not be decoded.
    Unreadable(int),
    /// The file at this position has a data row with more fields than its
    /// header, at this record position (the header is at 0).
    Malformed(int, int),
}

/// Loading files in order: the first file that cannot be read, or that has a
/// row with more fields than its header, ends the load with no documents.
pub open spec fn load_view(contents: Seq<Seq<u8>>) -> LoadView
    decreases contents.len(),
{
    if contents.len() == 0 {
        LoadView::Loaded(Seq::empty())
    } else {
        match load_view(contents.drop_last()) {
            LoadView::Loaded(docs) => match csv_records(contents.last()) {
                None => LoadView::Unreadable(contents.len() - 1),
                Some(records) => match first_malformed(records) {
                    Some(r) => LoadView::Malformed(contents.len() - 1, r),
                    None => match file_documents(records) {
                        None => LoadView::Unreadable(contents.len() - 1),
                        Some(fd) => LoadView::Loaded(docs + fd),
                    },
                },
            },
            failed => failed,
        }
    }
}

/// The contents of source files as the contracts see them.
pub open spec fn contents_of(files: Seq<SourceFile>) -> Seq<Seq<u8>> {
    files.map_values(|f: SourceFile| f.contents@)
}

/// Documents as the contracts see them.
pub open spec fn documents_view(docs: Seq<Document>) -> Seq<Seq<(Seq<char>, JsonValue)>> {
    docs.map_values(|d: Document| d@)
}

/// Once a field of a row cannot be decoded, the later fields do not change that.
proof fn lemma_row_failure_stays(header: Seq<Seq<char>>, row: Seq<Seq<char>>, k: int)
    requires
        0 <= k <= row.len(),
        row_entries(header, row.take(k)) is None,
    ensures
        row_entries(header, row) is None,
    decreases row.len() - k,
{
    if k < row.len() {
        assert(row.take(k + 1).drop_last() =~= row.take(k));
        lemma_row_failure_stays(header, row, k + 1);
    } else {
        assert(row.take(k) =~= row);
    }
}

/// The document of a data row under a header, or the reason a field of it
/// cannot be decoded.
fn row_document(header: &Vec<String>, row: &Vec<String>) -> (r: Result<Document, String>)
    requires
        row@.len() <= header@.len(),
    ensures
        match r {
            Ok(d) => row_entries(texts_view(header@), texts_view(row@)) == Some(d@),
            Err(_) => row_entries(texts_view(header@), texts_view(row@)) is None,
        },
{
    let mut doc = Document::new();
    let mut j: usize = 0;
    assert(texts_view(row@).take(0) =~= Seq::<Seq<char>>::empty());
    while j < row.len()
        invariant
            0 <= j <= row.len(),
            row@.len() <= header@.len(),
            row_entries(texts_view(header@), texts_view(row@).take(j as int)) == Some(doc@),
        decreases row.len() - j,
    {
        let ghost pre = texts_view(row@).take(j as int);
        let ghost next = texts_view(row@).take(j + 1);
        assert(next.drop_last() == pre);
        assert(next.last() == row@[j as int]@);
        match infer_field(&row[j]) {
            Ok(value) => doc.set(header[j].clone(), value),
            Err(why) => {
                proof {
                    lemma_row_failure_stays(texts_view(header@), texts_view(row@), j + 1);
                }
                return Err(why);
            },
        }
        j = j + 1;
    }
    assert(texts_view(row@).take(row.len() as int) == texts_view(row@));
    Ok(doc)
}

/// The description of a data row with more fields than its header.
pub open spec fn malformed_text(row: nat, file: Seq<char>) -> Seq<char> {
    "row "@ + decimal(row) + " of "@ + file + " has more fields than its header"@
}

/// Decodes every source file, in order, into documents keyed by its header
/// row. A row with fewer fields than the header leaves the trailing fields
/// absent; a row with more fails the whole load, naming the file and the row
/// (the header is row 1), as does a file that cannot be read as delimited
/// text or a field that cannot be decoded. On failure no document is returned.
#[verifier::loop_isolation(false)]
pub fn load_documents(files: &Vec<SourceFile>) -> (r: Result<Vec<Document>, Error>)
    ensures
        match r {
            Ok(docs) => load_view(contents_of(files@)) == LoadView::Loaded(documents_view(docs@)),
            Err(e) => match load_view(contents_of(files@)) {
                LoadView::Loaded(_) => false,
                LoadView::Unreadable(_) => e.subtype == ErrorType::ClientError,
                LoadView::Malformed(i, row) => e.subtype == ErrorType::MalformedRowError((row + 1) as usize)
                    && e.description@ == malformed_text((row + 1) as nat, files@[i].name@),
            },
        },
{
    let ghost contents = contents_of(files@);
    let mut docs: Vec<Document> = Vec::new();
    let mut f: usize = 0;
    assert(contents.take(0) =~= Seq::<Seq<u8>>::empty());
    assert(documents_view(docs@) =~= Seq::<Seq<(Seq<char>, JsonValue)>>::empty());
    while f < files.len()
        invariant
            0 <= f <= files.len(),
            contents == contents_of(files@),
            load_view(contents.take(f as int)) == LoadView::Loaded(documents_view(docs@)),
        decreases files.len() - f,
    {
        assert(contents.take(f + 1).drop_last() == contents.take(f as int));
        assert(contents.take(f + 1).last() == files@[f as int].contents@);
        let file = &files[f];
        let records = match read_records(&file.contents) {
            Ok(records) => records,
            Err(why) => {
                proof {
                    lemma_load_failure_stays(contents, f as int + 1);
                }
                let mut description = String::from_str("cannot read ");
                description.append(file.name.as_str());
                description.append(": ");
                description.append(why.as_str());
                return Err(Error::from_client_error(description));
            },
        };
        let ghost rv = rows_view(records@);
        if records.len() > 0 {
            let header = &records[0];
            let mut i: usize = 1;
            while i < records.len()
                invariant
                    1 <= i <= records.len(),
                    rv == rows_view(records@),
                    *header == records@[0],
                    forall|j: int| 1 <= j < i ==> !is_malformed(rv, j),
                decreases records.len() - i,
            {
                if records[i].len() > header.len() {
                    assert(is_malformed(rv, i as int));
                    assert(first_malformed(rv) == Some(i as int)) by {
                        let c = choose|c: int| is_malformed(rv, c) && forall|j: int| 1 <= j < c ==> !is_malformed(rv, j);
                        if c < i {
                            assert(!is_malformed(rv, c));
                        }
                        if c > i {
                            assert(!is_malformed(rv, i as int));
                        }
                    }
                    proof {
                        lemma_load_failure_stays(contents, f as int + 1);
                    }
                    let mut description = String::from_str("row ");
                    let n = decimal_text((i + 1) as u64);
                    description.append(n.as_str());
                    description.append(" of ");
                    description.append(file.name.as_str());
                    description.append(" has more fields than its header");
                    return Err(Error::new(ErrorType::MalformedRowError(i + 1), description));
                }
                i = i + 1;
            }
            assert(first_malformed(rv) is None) by {
                if exists|c: int| is_malformed(rv, c) {
                    let c = choose|c: int| is_malformed(rv, c);
                    assert(!is_malformed(rv, c));
                }
            }
            let ghost before = documents_view(docs@);
            let ghost all_docs = Seq::new(
                (records.len() - 1) as nat,
                |j: int| row_entries(rv[0], rv[j + 1])->0,
            );
            let mut k: usize = 1;
            while k < records.len()
                invariant
                    1 <= k <= records.len(),
                    rv == rows_view(records@),
                    *header == records@[0],
                    first_malformed(rv) is None,
                    forall|j: int| 1 <= j < k ==> !is_undecodable(rv, j),
                    documents_view(docs@) =~= before + all_docs.take(k - 1),
                decreases records.len() - k,
            {
                assert(!is_malformed(rv, k as int)) by {
                    if is_malformed(rv, k as int) {
                        assert(exists|c: int| is_malformed(rv, c));
                    }
                }
                assert(rv[k as int] == texts_view(records@[k as int]@));
                assert(rv[0] == texts_view(header@));
                let doc = match row_document(header, &records[k]) {
                    Ok(doc) => doc,
                    Err(why) => {
                        assert(is_undecodable(rv, k as int));
                        assert(file_documents(rv) is None);
                        proof {
                            lemma_load_failure_stays(contents, f as int + 1);
                        }
                        let mut description = String::from_str("cannot decode row ");
                        let n = decimal_text((k + 1) as u64);
                        description.append(n.as_str());
                        description.append(" of ");
                        description.append(file.name.as_str());
                        description.append(": ");
                        description.append(why.as_str());
                        return Err(Error::from_client_error(description));
                    },
                };
                let ghost prev = documents_view(docs@);
                docs.push(doc);
                assert(documents_view(docs@) =~= prev.push(all_docs[k - 1]));
                assert(all_docs.take(k as int) =~= all_docs.take(k - 1).push(all_docs[k - 1]));
                k = k + 1;
            }
            assert(!exists|c: int| is_undecodable(rv, c)) by {
                if exists|c: int| is_undecodable(rv, c) {
                    let c = choose|c: int| is_undecodable(rv, c);
                    assert(!is_undecodable(rv, c));
                }
            }
            assert(file_documents(rv) == Some(all_docs));
            assert(all_docs.take(records.len() - 1) =~= all_docs);
        } else {
            assert(first_malformed(rv) is None);
            assert(documents_view(docs@) =~= documents_view(docs@) + file_documents(rv)->0);
        }
        f = f + 1;
    }
    assert(contents.take(files.len() as int) =~= contents);
    Ok(docs)
}

/// Once a load has failed on a file, files after it do not change the outcome.
proof fn lemma_load_failure_stays(contents: Seq<Seq<u8>>, k: int)
    requires
        0 <= k <= contents.len(),
        load_view(contents.take(k)) !is Loaded,
    ensures
        load_view(contents) == load_view(contents.take(k)),
    decreases contents.len() - k,
{
    if k < contents.len() {
        assert(contents.take(k + 1).drop_last() == contents.take(k));
        lemma_load_failure_stays(contents, k + 1);
    } else {
        assert(contents.take(k) == contents);
    }
}

/// The outcome the service reports for one document of a bulk write.
#[derive(Debug)]
pub struct RawBulkSummaryAction {
    pub _index: String,
    pub _id: String,
    pub _version: i32,
    pub result: String,
    pub _seq_no: i32,
}

/// The service's answer to a bulk write: per document, its operation names
/// with their outcomes.
#[derive(Debug)]
pub struct RawBulkSummary {
    pub items: Vec<Vec<(String, RawBulkSummaryAction)>>,
}

/// The result tags of all outcomes, in order.
pub open spec fn outcome_tags(items: Seq<Vec<(String, RawBulkSummaryAction)>>) -> Seq<Seq<char>>
    decreases items.len(),
{
    if items.len() == 0 {
        Seq::empty()
    } else {
        outcome_tags(items.drop_last()) + items.last()@.map_values(
            |e: (String, RawBulkSummaryAction)| e.1.result@,
        )
    }
}

/// Whether `i` is the first position of `tag` among the counts.
pub open spec fn first_tag_at(counts: Seq<(Seq<char>, nat)>, tag: Seq<char>, i: int) -> bool {
    &&& 0 <= i < counts.len()
    &&& counts[i].0 == tag
    &&& forall|j: int| 0 <= j < i ==> counts[j].0 != tag
}

/// Counts after one more tag: its count goes up by one, or it is added with
/// a count of one.
pub open spec fn add_tag(counts: Seq<(Seq<char>, nat)>, tag: Seq<char>) -> Seq<(Seq<char>, nat)> {
    if exists|i: int| first_tag_at(counts, tag, i) {
        let i = choose|i: int| first_tag_at(counts, tag, i);
        counts.update(i, (tag, counts[i].1 + 1))
    } else {
        counts.push((tag, 1))
    }
}

/// The tags with their counts, in order of first appearance.
pub open spec fn tally(tags: Seq<Seq<char>>) -> Seq<(Seq<char>, nat)>
    decreases tags.len(),
{
    if tags.len() == 0 {
        Seq::empty()
    } else {
        add_tag(tally(tags.drop_last()), tags.last())
    }
}

/// The sum of the counts.
pub open spec fn total(counts: Seq<(Seq<char>, nat)>) -> nat
    decreases counts.len(),
{
    if counts.len() == 0 {
        0
    } else {
        total(counts.drop_last()) + counts.last().1
    }
}

/// Counts as the contracts see them.
pub open spec fn counts_view(counts: Seq<(String, usize)>) -> Seq<(Seq<char>, nat)> {
    counts.map_values(|c: (String, usize)| (c.0@, c.1 as nat))
}

/// Raising one count by one raises the sum by one.
proof fn lemma_total_update(counts: Seq<(Seq<char>, nat)>, i: int, tag: Seq<char>)
    requires
        0 <= i < counts.len(),
    ensures
        total(counts.update(i, (tag, counts[i].1 + 1))) == total(counts) + 1,
    decreases counts.len(),
{
    let u = counts.update(i, (tag, counts[i].1 + 1));
    if i < counts.len() - 1 {
        assert(u.drop_last() =~= counts.drop_last().update(i, (tag, counts[i].1 + 1)));
        lemma_total_update(counts.drop_last(), i, tag);
    } else {
        assert(u.drop_last() =~= counts.drop_last());
    }
}

/// The counts of a tally add up to the number of tags: every outcome is
/// counted once.
pub proof fn lemma_tally_total(tags: Seq<Seq<char>>)
    ensures
        total(tally(tags)) == tags.len(),
    decreases tags.len(),
{
    if tags.len() > 0 {
        lemma_tally_total(tags.drop_last());
        let c = tally(tags.drop_last());
        if exists|i: int| first_tag_at(c, tags.last(), i) {
            let i = choose|i: int| first_tag_at(c, tags.last(), i);
            lemma_total_update(c, i, tags.last());
        } else {
            assert(c.push((tags.last(), 1)).drop_last() =~= c);
        }
    }
}

/// The number of data rows of files that all load: the records after each
/// header.
pub open spec fn data_rows(contents: Seq<Seq<u8>>) -> nat
    decreases contents.len(),
{
    if contents.len() == 0 {
        0
    } else {
        data_rows(contents.drop_last()) + match csv_records(contents.last()) {
            Some(records) => if records.len() > 0 {
                (records.len() - 1) as nat
            } else {
                0
            },
            None => 0,
        }
    }
}

/// A load that succeeds yields one document per data row of every file.
pub proof fn lemma_loaded_count(contents: Seq<Seq<u8>>)
    ensures
        load_view(contents) matches LoadView::Loaded(docs) ==> docs.len() == data_rows(contents),
    decreases contents.len(),
{
    if contents.len() > 0 {
        lemma_loaded_count(contents.drop_last());
    }
}

/// A file with a data row wider than its header makes the whole load fail,
/// wherever that file stands: no document of any file is produced.
pub proof fn lemma_malformed_file_aborts(contents: Seq<Seq<u8>>, i: int)
    requires
        0 <= i < contents.len(),
        csv_records(contents[i]) is Some,
        first_malformed(csv_records(contents[i])->0) is Some,
    ensures
        load_view(contents) !is Loaded,
{
    assert(contents.take(i + 1).drop_last() == contents.take(i));
    assert(contents.take(i + 1).last() == contents[i]);
    lemma_load_failure_stays(contents, i + 1);
}

impl RawBulkSummary {
    /// The outcomes grouped by result tag, in order of first appearance, each
    /// with its count.
    pub fn summarize(&self) -> (r: Vec<(String, usize)>)
        requires
            outcome_tags(self.items@).len() <= usize::MAX,
        ensures
            counts_view(r@) == tally(outcome_tags(self.items@)),
    {
        let ghost all = outcome_tags(self.items@);
        let mut counts: Vec<(String, usize)> = Vec::new();
        let mut i: usize = 0;
        assert(counts_view(counts@) =~= tally(outcome_tags(self.items@.take(0))));
        while i < self.items.len()
            invariant
                0 <= i <= self.items.len(),
                all == outcome_tags(self.items@),
                all.len() <= usize::MAX,
                counts_view(counts@) == tally(outcome_tags(self.items@.take(i as int))),
            decreases self.items.len() - i,
        {
            let item = &self.items[i];
            let ghost done = outcome_tags(self.items@.take(i as int));
            let ghost row = item@.map_values(|e: (String, RawBulkSummaryAction)| e.1.result@);
            assert(self.items@.take(i + 1).drop_last() =~= self.items@.take(i as int));
            assert(outcome_tags(self.items@.take(i + 1)) == done + row);
            proof {
                lemma_prefix_tags_len(self.items@, i + 1);
            }
            let mut j: usize = 0;
            assert(done + row.take(0) =~= done);
            while j < item.len()
                invariant
                    0 <= j <= item.len(),
                    i < self.items.len(),
                    *item == self.items@[i as int],
                    row == item@.map_values(|e: (String, RawBulkSummaryAction)| e.1.result@),
                    (done + row).len() <= usize::MAX,
                    counts_view(counts@) == tally(done + row.take(j as int)),
                decreases item.len() - j,
            {
                assert((done + row.take(j + 1)).drop_last() =~= done + row.take(j as int));
                assert((done + row.take(j + 1)).last() == item@[j as int].1.result@);
                proof {
                    lemma_tally_total(done + row.take(j as int));
                    lemma_counts_bounded(tally(done + row.take(j as int)));
                    assert forall|k: int| 0 <= k < counts@.len() implies counts@[k].1 < usize::MAX by {
                        assert(counts_view(counts@)[k].1 == counts@[k].1 as nat);
                    }
                }
                add_tag_in(&mut counts, &item[j].1.result);
                j = j + 1;
            }
            assert(done + row.take(item.len() as int) =~= done + row);
            i = i + 1;
        }
        assert(self.items@.take(self.items.len() as int) =~= self.items@);
        counts
    }
}

/// Each count is at most the sum of the counts.
proof fn lemma_counts_bounded(counts: Seq<(Seq<char>, nat)>)
    ensures
        forall|k: int| 0 <= k < counts.len() ==> counts[k].1 <= total(counts),
    decreases counts.len(),
{
    if counts.len() > 0 {
        lemma_counts_bounded(counts.drop_last());
        assert forall|k: int| 0 <= k < counts.len() implies counts[k].1 <= total(counts) by {
            if k < counts.len() - 1 {
                assert(counts.drop_last()[k] == counts[k]);
            }
        }
    }
}

/// The tags of a prefix of the items are no more than the tags of all of them.
proof fn lemma_prefix_tags_len(items: Seq<Vec<(String, RawBulkSummaryAction)>>, k: int)
    requires
        0 <= k <= items.len(),
    ensures
        outcome_tags(items.take(k)).len() <= outcome_tags(items).len(),
    decreases items.len() - k,
{
    if k < items.len() {
        lemma_prefix_tags_len(items, k + 1);
        assert(items.take(k + 1).drop_last() =~= items.take(k));
    } else {
        assert(items.take(k) =~= items);
    }
}

/// Counts one more outcome with result tag `tag`.
fn add_tag_in(counts: &mut Vec<(String, usize)>, tag: &String)
    requires
        forall|k: int| 0 <= k < old(counts)@.len() ==> old(counts)@[k].1 < usize::MAX,
    ensures
        counts_view(final(counts)@) == add_tag(counts_view(old(counts)@), tag@),
{
    let ghost cv = counts_view(counts@);
    let mut i: usize = 0;
    while i < counts.len()
        invariant
            0 <= i <= counts.len(),
            cv == counts_view(counts@),
            *counts == *old(counts),
            forall|k: int| 0 <= k < old(counts)@.len() ==> old(counts)@[k].1 < usize::MAX,
            forall|k: int| 0 <= k < i ==> cv[k].0 != tag@,
        decreases counts.len() - i,
    {
        if counts[i].0 == *tag {
            assert(first_tag_at(cv, tag@, i as int));
            let ghost c = choose|c: int| first_tag_at(cv, tag@, c);
            assert(c == i as int) by {
                if c < i {
                    assert(cv[c].0 != tag@);
                }
                if c > i {
                    assert(cv[i as int].0 != tag@);
                }
            }
            let n = counts[i].1 + 1;
            let name = counts[i].0.clone();
            counts.set(i, (name, n));
            assert(counts_view(counts@) =~= cv.update(i as int, (tag@, cv[i as int].1 + 1)));
            return;
        }
        i = i + 1;
    }
    assert(!exists|c: int| first_tag_at(cv, tag@, c)) by {
        if exists|c: int| first_tag_at(cv, tag@, c) {
            let c = choose|c: int| first_tag_at(cv, tag@, c);
            assert(cv[c].0 != tag@);
        }
    }
    counts.push((tag.clone(), 1));
    assert(counts_view(counts@) =~= cv.push((tag@, 1)));
}

} // verus!
