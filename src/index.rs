//! Listing collections: which ones to match, what each entry says, and the
//! rows that show them.
use vstd::prelude::*;
use crate::document::{field_of, Document};
use crate::json::JsonValue;
use crate::table::{rows_view, texts_view};
use crate::text::{decimal, decimal_text, parse_u64, parse_u64_spec};
use tabled::settings::{object::Columns, Alignment, Modify, Padding, Style};

verus! {

/// Which collections a listing matches.
#[derive(Debug, Clone, Copy, PartialEq, Eq, Structural)]
pub enum Wildcard {
    All,
    Open,
    Closed,
    Hidden,
}

/// The wildcards for the listing flags: `all` adds hidden collections, `open`
/// and `closed` choose by state; with no flag, open collections.
pub open spec fn wildcards_for(all: bool, open: bool, closed: bool) -> Seq<Wildcard> {
    if all && open && closed {
        seq![Wildcard::Open, Wildcard::Closed, Wildcard::Hidden]
    } else if all && open {
        seq![Wildcard::Open, Wildcard::Hidden]
    } else if all && closed {
        seq![Wildcard::Closed, Wildcard::Hidden]
    } else if open && closed {
        seq![Wildcard::Open, Wildcard::Closed]
    } else if all {
        seq![Wildcard::All]
    } else if open {
        seq![Wildcard::Open]
    } else if closed {
        seq![Wildcard::Closed]
    } else {
        seq![Wildcard::Open]
    }
}

/// The wildcards for the listing flags.
pub fn expand_wildcards(all: bool, open: bool, closed: bool) -> (r: Vec<Wildcard>)
    ensures
        r@ == wildcards_for(all, open, closed),
{
    let mut r: Vec<Wildcard> = Vec::new();
    if all && open && closed {
        r.push(Wildcard::Open);
        r.push(Wildcard::Closed);
        r.push(Wildcard::Hidden);
    } else if all && open {
        r.push(Wildcard::Open);
        r.push(Wildcard::Hidden);
    } else if all && closed {
        r.push(Wildcard::Closed);
        r.push(Wildcard::Hidden);
    } else if open && closed {
        r.push(Wildcard::Open);
        r.push(Wildcard::Closed);
    } else if all {
        r.push(Wildcard::All);
    } else if open {
        r.push(Wildcard::Open);
    } else if closed {
        r.push(Wildcard::Closed);
    } else {
        r.push(Wildcard::Open);
    }
    assert(r@ =~= wildcards_for(all, open, closed));
    r
}

/// What a listing says of one collection.
#[derive(Debug)]
pub struct IndexDetail {
    pub health: String,
    pub status: String,
    pub name: String,
    pub uuid: String,
    pub docs_count: Option<u64>,
    pub docs_deleted: Option<u64>,
    pub store_size: Option<u64>,
    pub dataset_size: Option<u64>,
}

/// The text an entry gives for `key`, or `unknown` when it gives no text.
pub open spec fn text_field(entry: Seq<(Seq<char>, JsonValue)>, key: Seq<char>) -> Seq<char> {
    match field_of(entry, key) {
        Some(JsonValue::String(s)) => s@,
        _ => "unknown"@,
    }
}

/// The number an entry gives for `key` as decimal text, if it does.
pub open spec fn number_field(entry: Seq<(Seq<char>, JsonValue)>, key: Seq<char>) -> Option<u64> {
    match field_of(entry, key) {
        Some(JsonValue::String(s)) => parse_u64_spec(s@),
        _ => None,
    }
}

fn text_of(entry: &Document, key: &str) -> (r: String)
    ensures
        r@ == text_field(entry@, key@),
{
    proof {
        reveal_strlit("unknown");
    }
    match entry.get(&String::from_str(key)) {
        Some(JsonValue::String(s)) => s.clone(),
        _ => String::from_str("unknown"),
    }
}

fn number_of(entry: &Document, key: &str) -> (r: Option<u64>)
    ensures
        r == number_field(entry@, key@),
{
    match entry.get(&String::from_str(key)) {
        Some(JsonValue::String(s)) => parse_u64(s.as_str()),
        _ => None,
    }
}

impl IndexDetail {
    /// The detail of one listing entry: its texts (`unknown` where missing),
    /// and its counts and sizes where they are unsigned decimal texts.
    pub fn from_entry(entry: &Document) -> (r: IndexDetail)
        ensures
            r.health@ == text_field(entry@, "health"@),
            r.status@ == text_field(entry@, "status"@),
            r.name@ == text_field(entry@, "index"@),
            r.uuid@ == text_field(entry@, "uuid"@),
            r.docs_count == number_field(entry@, "docs.count"@),
            r.docs_deleted == number_field(entry@, "docs.deleted"@),
            r.store_size == number_field(entry@, "store.size"@),
            r.dataset_size == number_field(entry@, "dataset.size"@),
    {
        IndexDetail {
            health: text_of(entry, "health"),
            status: text_of(entry, "status"),
            name: text_of(entry, "index"),
            uuid: text_of(entry, "uuid"),
            docs_count: number_of(entry, "docs.count"),
            docs_deleted: number_of(entry, "docs.deleted"),
            store_size: number_of(entry, "store.size"),
            dataset_size: number_of(entry, "dataset.size"),
        }
    }
}

/// A size in bytes in decimal units with at most one fractional digit.
pub uninterp spec fn decimal_size_text(n: u64) -> Seq<char>;

/// Relies on byte_unit's `Byte::get_appropriate_unit` with decimal units, and
/// its `Display` with one fractional digit at most.
#[verifier::external_body]
fn size_text(n: u64) -> (r: String)
    ensures
        r@ == decimal_size_text(n),
{
    format!("{:-#.1}", byte_unit::Byte::from_u64(n).get_appropriate_unit(byte_unit::UnitType::Decimal))
}

/// The rendered text of listing rows: no borders, the first column padded
/// on its right, the fourth and fifth columns aligned right.
pub uninterp spec fn listing_table_text(rows: Seq<Seq<Seq<char>>>) -> Seq<char>;

/// Relies on tabled's `Builder`, `Style::empty`, `Padding` and `Alignment`:
/// lays the rows out as an aligned listing. The first row gives the column
/// count, so no row may be longer.
#[verifier::external_body]
fn listing_table(rows: Vec<Vec<String>>) -> (r: String)
    requires
        forall|i: int| 0 <= i < rows@.len() ==> #[trigger] rows@[i]@.len() <= rows@[0]@.len(),
    ensures
        r@ == listing_table_text(rows_view(rows@)),
{
    let mut table = tabled::builder::Builder::from(rows).build();
    table.with(Style::empty()).with(Modify::new(Columns::first()).with(Padding::new(0, 1, 0, 0)));
    table.with(Modify::new(Columns::single(3)).with(Alignment::right()));
    table.with(Modify::new(Columns::single(4)).with(Alignment::right()));
    table.to_string()
}

/// The symbol of a health colour: green, yellow and red discs, else a black one.
pub open spec fn health_symbol(health: Seq<char>) -> Seq<char> {
    if health == "green"@ {
        "\u{1F7E2}"@
    } else if health == "yellow"@ {
        "\u{1F7E1}"@
    } else if health == "red"@ {
        "\u{1F534}"@
    } else {
        "\u{26AB}"@
    }
}

/// The symbol of a state: a lock for a closed collection, else nothing.
pub open spec fn status_symbol(status: Seq<char>) -> Seq<char> {
    if status == "closed"@ {
        "\u{1F512}"@
    } else {
        Seq::empty()
    }
}

/// Whether a listing shows a collection: always with `all`, else only one
/// whose name does not start with a dot.
pub open spec fn is_listed(d: IndexDetail, all: bool) -> bool {
    all || !(d.name@.len() > 0 && d.name@[0] == '.')
}

/// The row that shows a collection: health, identifier, name, document
/// count, dataset size and state (a missing count or size shows as zero).
pub open spec fn listing_row(d: IndexDetail) -> Seq<Seq<char>> {
    seq![
        health_symbol(d.health@),
        d.uuid@,
        d.name@,
        decimal(
            match d.docs_count {
                Some(n) => n as nat,
                None => 0,
            },
        ) + " docs"@,
        decimal_size_text(
            match d.dataset_size {
                Some(n) => n,
                None => 0,
            },
        ),
        status_symbol(d.status@),
    ]
}

/// The rows of the listed collections, in order.
pub open spec fn listing_rows(details: Seq<IndexDetail>, all: bool) -> Seq<Seq<Seq<char>>>
    decreases details.len(),
{
    if details.len() == 0 {
        Seq::empty()
    } else {
        let rest = listing_rows(details.drop_last(), all);
        if is_listed(details.last(), all) {
            rest.push(listing_row(details.last()))
        } else {
            rest
        }
    }
}

fn text_is(s: &String, lit: &str) -> (r: bool)
    ensures
        r == (s@ == lit@),
{
    *s == String::from_str(lit)
}

fn health_symbol_of(health: &String) -> (r: String)
    ensures
        r@ == health_symbol(health@),
{
    if text_is(health, "green") {
        String::from_str("\u{1F7E2}")
    } else if text_is(health, "yellow") {
        String::from_str("\u{1F7E1}")
    } else if text_is(health, "red") {
        String::from_str("\u{1F534}")
    } else {
        String::from_str("\u{26AB}")
    }
}

fn listing_row_of(d: &IndexDetail) -> (r: Vec<String>)
    ensures
        texts_view(r@) == listing_row(*d),
{
    let mut row: Vec<String> = Vec::new();
    row.push(health_symbol_of(&d.health));
    row.push(d.uuid.clone());
    row.push(d.name.clone());
    let count = match d.docs_count {
        Some(n) => n,
        None => 0,
    };
    let mut docs = decimal_text(count);
    docs.append(" docs");
    row.push(docs);
    let size = match d.dataset_size {
        Some(n) => n,
        None => 0,
    };
    row.push(size_text(size));
    if text_is(&d.status, "closed") {
        row.push(String::from_str("\u{1F512}"));
    } else {
        row.push(String::new());
    }
    assert(texts_view(row@) =~= listing_row(*d));
    row
}

/// The rows that show the listed collections, in order: all of them with
/// `all`, else those whose names do not start with a dot.
pub fn index_list_rows(details: &Vec<IndexDetail>, all: bool) -> (r: Vec<Vec<String>>)
    ensures
        rows_view(r@) == listing_rows(details@, all),
{
    let mut rows: Vec<Vec<String>> = Vec::new();
    let mut i: usize = 0;
    assert(rows_view(rows@) =~= listing_rows(details@.take(0), all));
    while i < details.len()
        invariant
            0 <= i <= details.len(),
            rows_view(rows@) == listing_rows(details@.take(i as int), all),
        decreases details.len() - i,
    {
        assert(details@.take(i + 1).drop_last() =~= details@.take(i as int));
        assert(details@.take(i + 1).last() == details@[i as int]);
        let d = &details[i];
        let name = &d.name;
        let hidden = name.unicode_len() > 0 && name.as_str().get_char(0) == '.';
        if all || !hidden {
            let ghost before = rows_view(rows@);
            rows.push(listing_row_of(d));
            assert(rows_view(rows@) =~= before.push(listing_row(*d)));
        }
        i = i + 1;
    }
    assert(details@.take(details.len() as int) =~= details@);
    rows
}

/// Every listing row has six cells.
proof fn lemma_listing_rows_width(details: Seq<IndexDetail>, all: bool)
    ensures
        forall|i: int| 0 <= i < listing_rows(details, all).len() ==> #[trigger] listing_rows(details, all)[i].len() == 6,
    decreases details.len(),
{
    if details.len() > 0 {
        lemma_listing_rows_width(details.drop_last(), all);
        assert(listing_row(details.last()).len() == 6);
        let rest = listing_rows(details.drop_last(), all);
        assert forall|i: int| 0 <= i < listing_rows(details, all).len() implies #[trigger] listing_rows(
            details,
            all,
        )[i].len() == 6 by {
            if i < rest.len() {
                assert(listing_rows(details, all)[i] == rest[i]);
            }
        }
    }
}

/// The listing as aligned text, or nothing when no collection is listed.
pub fn render_index_list(details: &Vec<IndexDetail>, all: bool) -> (r: Option<String>)
    ensures
        listing_rows(details@, all).len() == 0 ==> r is None,
        listing_rows(details@, all).len() > 0 ==> (r matches Some(t) && t@ == listing_table_text(
            listing_rows(details@, all),
        )),
{
    let rows = index_list_rows(details, all);
    if rows.len() == 0 {
        None
    } else {
        proof {
            lemma_listing_rows_width(details@, all);
            assert forall|i: int| 0 <= i < rows@.len() implies #[trigger] rows@[i]@.len() <= rows@[0]@.len() by {
                assert(rows_view(rows@)[i] == texts_view(rows@[i]@));
                assert(rows_view(rows@)[0] == texts_view(rows@[0]@));
            }
        }
        Some(listing_table(rows))
    }
}

} // verus!
