//! A table built from documents whose fields differ: columns are discovered
//! as documents arrive, in order of first appearance.
use vstd::prelude::*;
use crate::document::{field_of, key_index, keys_of, lemma_key_index_found, Document};
use crate::json::{cell_text, JsonValue};

verus! {

/// The text of a cell whose document lacks the column's field.
pub open spec fn null_text() -> Seq<char> {
    "null"@
}

/// The text shown instead of a table that has no rows.
pub open spec fn no_rows_text() -> Seq<char> {
    "No rows"@
}

/// Texts as the contracts see them.
pub open spec fn texts_view(v: Seq<String>) -> Seq<Seq<char>> {
    v.map_values(|s: String| s@)
}

/// Rows of texts as the contracts see them.
pub open spec fn rows_view(v: Seq<Vec<String>>) -> Seq<Seq<Seq<char>>> {
    v.map_values(|r: Vec<String>| texts_view(r@))
}

/// The columns after meeting field names `keys`: each name not yet a column
/// is appended, in the order met.
pub open spec fn extend_columns(cols: Seq<Seq<char>>, keys: Seq<Seq<char>>) -> Seq<Seq<char>>
    decreases keys.len(),
{
    if keys.len() == 0 {
        cols
    } else {
        let c = extend_columns(cols, keys.drop_last());
        if c.contains(keys.last()) {
            c
        } else {
            c.push(keys.last())
        }
    }
}

/// The text of a document's cell in column `col`.
pub open spec fn cell_for(doc: Seq<(Seq<char>, JsonValue)>, col: Seq<char>) -> Seq<char> {
    match field_of(doc, col) {
        Some(v) => cell_text(v),
        None => null_text(),
    }
}

/// The row of a document under columns `cols`.
pub open spec fn row_for(cols: Seq<Seq<char>>, doc: Seq<(Seq<char>, JsonValue)>) -> Seq<Seq<char>> {
    Seq::new(cols.len(), |i: int| cell_for(doc, cols[i]))
}

/// A stored row widened to `n` cells: the cells of columns found after the row
/// was added hold the null text.
pub open spec fn padded(row: Seq<Seq<char>>, n: nat) -> Seq<Seq<char>> {
    Seq::new(n, |j: int| if j < row.len() { row[j] } else { null_text() })
}

/// The columns of a table that received documents with the field names
/// `key_lists`, one list per document, in order.
pub open spec fn columns_after(key_lists: Seq<Seq<Seq<char>>>) -> Seq<Seq<char>>
    decreases key_lists.len(),
{
    if key_lists.len() == 0 {
        Seq::empty()
    } else {
        extend_columns(columns_after(key_lists.drop_last()), key_lists.last())
    }
}

/// The distinct field names among the lists `key_lists`.
pub open spec fn names_seen(key_lists: Seq<Seq<Seq<char>>>) -> Set<Seq<char>>
    decreases key_lists.len(),
{
    if key_lists.len() == 0 {
        Set::empty()
    } else {
        names_seen(key_lists.drop_last()).union(key_lists.last().to_set())
    }
}

/// Extending columns keeps them as a prefix, adds exactly the new names, and
/// keeps the names distinct.
pub proof fn lemma_extend_columns(cols: Seq<Seq<char>>, keys: Seq<Seq<char>>)
    ensures
        extend_columns(cols, keys).len() >= cols.len(),
        extend_columns(cols, keys).subrange(0, cols.len() as int) == cols,
        forall|x: Seq<char>| #[trigger] extend_columns(cols, keys).contains(x) <==> (cols.contains(x) || keys.contains(x)),
        cols.no_duplicates() ==> extend_columns(cols, keys).no_duplicates(),
    decreases keys.len(),
{
    if keys.len() > 0 {
        let pre = keys.drop_last();
        lemma_extend_columns(cols, pre);
        let c = extend_columns(cols, pre);
        assert forall|x: Seq<char>| keys.contains(x) <==> (pre.contains(x) || x == keys.last()) by {
            if keys.contains(x) {
                let i = choose|i: int| 0 <= i < keys.len() && keys[i] == x;
                if i < keys.len() - 1 {
                    assert(pre[i] == x);
                }
            }
            if pre.contains(x) {
                let i = choose|i: int| 0 <= i < pre.len() && pre[i] == x;
                assert(keys[i] == x);
            }
            if x == keys.last() {
                assert(keys[keys.len() - 1] == x);
            }
        }
        if !c.contains(keys.last()) {
            let e = c.push(keys.last());
            assert(e.subrange(0, cols.len() as int) =~= c.subrange(0, cols.len() as int));
            assert forall|x: Seq<char>| e.contains(x) <==> (c.contains(x) || x == keys.last()) by {
                if e.contains(x) {
                    let i = choose|i: int| 0 <= i < e.len() && e[i] == x;
                    if i < c.len() {
                        assert(c[i] == x);
                    }
                }
                if c.contains(x) {
                    let i = choose|i: int| 0 <= i < c.len() && c[i] == x;
                    assert(e[i] == x);
                }
                if x == keys.last() {
                    assert(e[c.len() as int] == x);
                }
            }
        }
    }
}

/// The columns after any documents are distinct and are exactly the names seen.
pub proof fn lemma_columns_are_names_seen(key_lists: Seq<Seq<Seq<char>>>)
    ensures
        columns_after(key_lists).no_duplicates(),
        columns_after(key_lists).to_set() == names_seen(key_lists),
    decreases key_lists.len(),
{
    if key_lists.len() > 0 {
        let prev = key_lists.drop_last();
        lemma_columns_are_names_seen(prev);
        lemma_extend_columns(columns_after(prev), key_lists.last());
        assert(columns_after(key_lists).to_set() =~= names_seen(key_lists));
    } else {
        assert(columns_after(key_lists).to_set() =~= names_seen(key_lists));
    }
}

/// After any sequence of documents, a table has as many columns as there are
/// distinct field names among those documents, and a further document never
/// takes a column away.
pub proof fn lemma_column_count(key_lists: Seq<Seq<Seq<char>>>)
    ensures
        columns_after(key_lists).len() == names_seen(key_lists).len(),
        key_lists.len() > 0 ==> columns_after(key_lists.drop_last()).len() <= columns_after(key_lists).len(),
{
    lemma_columns_are_names_seen(key_lists);
    columns_after(key_lists).unique_seq_to_set();
    if key_lists.len() > 0 {
        lemma_extend_columns(columns_after(key_lists.drop_last()), key_lists.last());
    }
}

/// The field names of each document, in order.
pub open spec fn key_lists(docs: Seq<Seq<(Seq<char>, JsonValue)>>) -> Seq<Seq<Seq<char>>> {
    docs.map_values(|d: Seq<(Seq<char>, JsonValue)>| keys_of(d))
}

/// The rows a table stores after receiving documents: each document's row
/// under the columns known when it arrived.
pub open spec fn rows_after(docs: Seq<Seq<(Seq<char>, JsonValue)>>) -> Seq<Seq<Seq<char>>>
    decreases docs.len(),
{
    if docs.len() == 0 {
        Seq::empty()
    } else {
        rows_after(docs.drop_last()).push(row_for(columns_after(key_lists(docs)), docs.last()))
    }
}

/// A stored row that shows a document under some columns still shows it under
/// those columns extended by later names.
proof fn lemma_widen_row(
    row: Seq<Seq<char>>,
    cols: Seq<Seq<char>>,
    later: Seq<Seq<char>>,
    doc: Seq<(Seq<char>, JsonValue)>,
)
    requires
        cols.no_duplicates(),
        row.len() <= cols.len(),
        padded(row, cols.len()) == row_for(cols, doc),
        forall|k: Seq<char>| keys_of(doc).contains(k) ==> cols.contains(k),
    ensures
        padded(row, extend_columns(cols, later).len()) == row_for(extend_columns(cols, later), doc),
{
    let now = extend_columns(cols, later);
    lemma_extend_columns(cols, later);
    assert forall|j: int| 0 <= j < now.len() implies #[trigger] padded(row, now.len())[j] == row_for(now, doc)[j] by {
        if j < cols.len() {
            assert(now.subrange(0, cols.len() as int)[j] == now[j]);
            assert(padded(row, cols.len())[j] == row_for(cols, doc)[j]);
        } else {
            let c = now[j];
            assert(!cols.contains(c)) by {
                if cols.contains(c) {
                    let k = choose|k: int| 0 <= k < cols.len() && cols[k] == c;
                    assert(now.subrange(0, cols.len() as int)[k] == now[k]);
                }
            }
            lemma_key_index_found(doc, c);
            if key_index(doc, c) >= 0 {
                assert(keys_of(doc)[key_index(doc, c)] == c);
            }
        }
    }
    assert(padded(row, now.len()) =~= row_for(now, doc));
}

/// After any sequence of documents, each row a table shows, widened to the
/// final columns, holds for every column the text of that document's field,
/// or the null text where the document lacks it, whether the column was found
/// before or after the document arrived.
pub proof fn lemma_rendered_rows(docs: Seq<Seq<(Seq<char>, JsonValue)>>)
    ensures
        rows_after(docs).len() == docs.len(),
        forall|i: int| 0 <= i < docs.len() ==> rows_after(docs)[i].len() <= columns_after(key_lists(docs)).len(),
        forall|i: int| 0 <= i < docs.len() ==> #[trigger] padded(
            rows_after(docs)[i],
            columns_after(key_lists(docs)).len(),
        ) == row_for(columns_after(key_lists(docs)), docs[i]),
    decreases docs.len(),
{
    if docs.len() > 0 {
        let pre = docs.drop_last();
        let d = docs.last();
        assert(key_lists(docs).drop_last() =~= key_lists(pre));
        assert(key_lists(docs).last() == keys_of(d));
        lemma_rendered_rows(pre);
        let c0 = columns_after(key_lists(pre));
        let c1 = columns_after(key_lists(docs));
        assert(c1 == extend_columns(c0, keys_of(d)));
        lemma_columns_are_names_seen(key_lists(pre));
        lemma_extend_columns(c0, keys_of(d));
        lemma_keys_within_columns(pre);
        assert forall|i: int| 0 <= i < docs.len() implies #[trigger] padded(rows_after(docs)[i], c1.len()) == row_for(
            c1,
            docs[i],
        ) && rows_after(docs)[i].len() <= c1.len() by {
            if i < docs.len() - 1 {
                assert(rows_after(docs)[i] == rows_after(pre)[i]);
                assert(docs[i] == pre[i]);
                lemma_widen_row(rows_after(pre)[i], c0, keys_of(d), pre[i]);
            } else {
                assert(padded(row_for(c1, d), c1.len()) =~= row_for(c1, d));
            }
        }
    }
}

/// Every field name of a document received so far is a column.
proof fn lemma_keys_within_columns(docs: Seq<Seq<(Seq<char>, JsonValue)>>)
    ensures
        forall|i: int, k: Seq<char>|
            0 <= i < docs.len() && #[trigger] keys_of(docs[i]).contains(k) ==> columns_after(key_lists(docs)).contains(k),
    decreases docs.len(),
{
    if docs.len() > 0 {
        let pre = docs.drop_last();
        assert(key_lists(docs).drop_last() =~= key_lists(pre));
        lemma_keys_within_columns(pre);
        lemma_extend_columns(columns_after(key_lists(pre)), keys_of(docs.last()));
        assert forall|i: int, k: Seq<char>|
            0 <= i < docs.len() && #[trigger] keys_of(docs[i]).contains(k) implies columns_after(key_lists(docs)).contains(k) by {
            if i < docs.len() - 1 {
                assert(docs[i] == pre[i]);
            }
        }
    }
}

/// A table's contents: its column names and its rows of cell texts.
pub ghost struct TableView {
    pub columns: Seq<Seq<char>>,
    pub rows: Seq<Seq<Seq<char>>>,
}

/// The rendered text of a table with a header row (the first record), in the
/// sharp style.
pub uninterp spec fn sharp_table_text(records: Seq<Seq<Seq<char>>>) -> Seq<char>;

/// Relies on tabled's `Builder` and `Style::sharp`: lays out the records as an
/// aligned table whose first record is the header. The first record gives the
/// column count, so no record may be longer.
#[verifier::external_body]
fn sharp_table(records: Vec<Vec<String>>) -> (r: String)
    requires
        forall|i: int| 0 <= i < records@.len() ==> #[trigger] records@[i]@.len() <= records@[0]@.len(),
    ensures
        r@ == sharp_table_text(rows_view(records@)),
{
    let mut table = tabled::builder::Builder::from(records).build();
    table.with(tabled::settings::Style::sharp());
    table.to_string()
}

/// Whether `names` holds `name`.
fn contains_text(names: &Vec<String>, name: &String) -> (r: bool)
    ensures
        r == texts_view(names@).contains(name@),
{
    let ghost v = texts_view(names@);
    let mut i: usize = 0;
    while i < names.len()
        invariant
            0 <= i <= names.len(),
            v == texts_view(names@),
            forall|j: int| 0 <= j < i ==> v[j] != name@,
        decreases names.len() - i,
    {
        if names[i] == *name {
            assert(v[i as int] == name@);
            return true;
        }
        i = i + 1;
    }
    false
}

/// A table accumulating documents.
#[derive(Debug)]
pub struct Table {
    column_names: Vec<String>,
    rows: Vec<Vec<String>>,
}

impl View for Table {
    type V = TableView;

    closed spec fn view(&self) -> TableView {
        TableView { columns: texts_view(self.column_names@), rows: rows_view(self.rows@) }
    }
}

impl Table {
    /// Column names are distinct, and no row is wider than the columns.
    pub closed spec fn wf(&self) -> bool {
        &&& texts_view(self.column_names@).no_duplicates()
        &&& forall|i: int| 0 <= i < self.rows@.len() ==> self.rows@[i]@.len() <= self.column_names@.len()
    }

    /// An empty table.
    pub fn new() -> (r: Table)
        ensures
            r.wf(),
            r@.columns.len() == 0,
            r@.rows.len() == 0,
    {
        let r = Table { column_names: Vec::new(), rows: Vec::new() };
        assert(r@.columns =~= Seq::<Seq<char>>::empty());
        assert(r@.rows =~= Seq::<Seq<Seq<char>>>::empty());
        r
    }

    /// Adds a document: each of its field names that is not yet a column
    /// becomes the last column, and the document's row holds, for every column,
    /// the text of its field, or the null text when it lacks the field.
    pub fn push_document(&mut self, doc: &Document)
        requires
            old(self).wf(),
        ensures
            final(self).wf(),
            final(self)@.columns == extend_columns(old(self)@.columns, keys_of(doc@)),
            final(self)@.rows == old(self)@.rows.push(row_for(final(self)@.columns, doc@)),
    {
        let ghost keys = keys_of(doc@);
        let ghost old_cols = self@.columns;
        let ghost old_rows = self@.rows;
        let mut names: Vec<String> = Vec::new();
        let mut rows: Vec<Vec<String>> = Vec::new();
        std::mem::swap(&mut names, &mut self.column_names);
        std::mem::swap(&mut rows, &mut self.rows);
        assert(texts_view(names@) == old_cols);
        assert(rows_view(rows@) == old_rows);
        let n = doc.len();
        let mut i: usize = 0;
        while i < n
            invariant
                0 <= i <= n,
                n == doc@.len(),
                keys == keys_of(doc@),
                texts_view(names@) == extend_columns(old_cols, keys.subrange(0, i as int)),
                texts_view(names@).no_duplicates(),
                names@.len() >= old_cols.len(),
            decreases n - i,
        {
            let key = doc.key_at(i);
            let ghost pre = keys.subrange(0, i as int);
            let ghost next = keys.subrange(0, i + 1);
            assert(next.drop_last() == pre);
            assert(next.last() == key@);
            if !contains_text(&names, key) {
                names.push(key.clone());
                assert(texts_view(names@) =~= extend_columns(old_cols, pre).push(key@));
            }
            i = i + 1;
        }
        assert(keys.subrange(0, n as int) =~= keys);
        let ghost cols = texts_view(names@);
        let mut row: Vec<String> = Vec::new();
        let mut j: usize = 0;
        while j < names.len()
            invariant
                0 <= j <= names.len(),
                cols == texts_view(names@),
                texts_view(row@) =~= Seq::new(j as nat, |c: int| cell_for(doc@, cols[c])),
            decreases names.len() - j,
        {
            assert(cols[j as int] == names@[j as int]@);
            let cell = match doc.get(&names[j]) {
                Some(v) => v.cell_text(),
                None => {
                    proof {
                        reveal_strlit("null");
                    }
                    String::from_str("null")
                },
            };
            let ghost before = texts_view(row@);
            row.push(cell);
            assert(texts_view(row@) =~= before.push(cell_for(doc@, cols[j as int])));
            j = j + 1;
        }
        let ghost new_row = texts_view(row@);
        assert(new_row =~= row_for(cols, doc@));
        rows.push(row);
        assert(rows_view(rows@) =~= old_rows.push(new_row));
        std::mem::swap(&mut names, &mut self.column_names);
        std::mem::swap(&mut rows, &mut self.rows);
    }

    /// The number of rows.
    pub fn count_rows(&self) -> (r: usize)
        ensures
            r == self@.rows.len(),
    {
        self.rows.len()
    }

    /// The number of columns.
    pub fn count_columns(&self) -> (r: usize)
        ensures
            r == self@.columns.len(),
    {
        self.column_names.len()
    }

    /// The column names, in order of first appearance.
    pub fn column_names(&self) -> (r: Vec<String>)
        ensures
            texts_view(r@) == self@.columns,
    {
        let mut r: Vec<String> = Vec::new();
        let mut i: usize = 0;
        while i < self.column_names.len()
            invariant
                0 <= i <= self.column_names.len(),
                texts_view(r@) =~= texts_view(self.column_names@).subrange(0, i as int),
            decreases self.column_names.len() - i,
        {
            let ghost before = texts_view(r@);
            let name = self.column_names[i].clone();
            r.push(name);
            assert(texts_view(r@) =~= before.push(self.column_names@[i as int]@));
            i = i + 1;
        }
        assert(texts_view(self.column_names@).subrange(0, i as int) =~= texts_view(self.column_names@));
        r
    }

    /// Appends the rows to `out`, each as wide as the columns: a cell of a
    /// column found after the row was added holds the null text.
    fn append_padded_rows(&self, out: &mut Vec<Vec<String>>)
        requires
            self.wf(),
        ensures
            rows_view(final(out)@) == rows_view(old(out)@) + Seq::new(
                self@.rows.len(),
                |i: int| padded(self@.rows[i], self@.columns.len()),
            ),
    {
        proof {
            reveal_strlit("null");
        }
        let width = self.column_names.len();
        let ghost start = rows_view(out@);
        let mut i: usize = 0;
        while i < self.rows.len()
            invariant
                0 <= i <= self.rows.len(),
                self.wf(),
                width == self@.columns.len(),
                rows_view(out@) =~= start + Seq::new(i as nat, |k: int| padded(self@.rows[k], width as nat)),
            decreases self.rows.len() - i,
        {
            let src = &self.rows[i];
            let mut row: Vec<String> = Vec::new();
            let mut j: usize = 0;
            while j < width
                invariant
                    0 <= j <= width,
                    i < self.rows@.len(),
                    *src == self.rows@[i as int],
                    self@.rows[i as int] == texts_view(src@),
                    texts_view(row@) =~= padded(self@.rows[i as int], width as nat).subrange(0, j as int),
                decreases width - j,
            {
                let ghost before = texts_view(row@);
                if j < src.len() {
                    row.push(src[j].clone());
                } else {
                    row.push(String::from_str("null"));
                }
                assert(texts_view(row@) =~= before.push(padded(self@.rows[i as int], width as nat)[j as int]));
                j = j + 1;
            }
            assert(padded(self@.rows[i as int], width as nat).subrange(0, width as int) =~= padded(
                self@.rows[i as int],
                width as nat,
            ));
            let ghost before_rows = rows_view(out@);
            out.push(row);
            assert(rows_view(out@) =~= before_rows.push(padded(self@.rows[i as int], width as nat)));
            i = i + 1;
        }
    }

    /// The rows, each as wide as the columns: a cell of a column found after
    /// the row was added holds the null text.
    pub fn cells(&self) -> (r: Vec<Vec<String>>)
        requires
            self.wf(),
        ensures
            rows_view(r@) == Seq::new(
                self@.rows.len(),
                |i: int| padded(self@.rows[i], self@.columns.len()),
            ),
    {
        let mut r: Vec<Vec<String>> = Vec::new();
        self.append_padded_rows(&mut r);
        assert(rows_view(r@) =~= Seq::new(
            self@.rows.len(),
            |i: int| padded(self@.rows[i], self@.columns.len()),
        ));
        r
    }

    /// The table as aligned text with a header of column names, or the
    /// no-rows text when nothing was added. The table is left as it is.
    pub fn render(&self) -> (r: String)
        requires
            self.wf(),
        ensures
            self@.rows.len() == 0 ==> r@ == no_rows_text(),
            self@.rows.len() > 0 ==> r@ == sharp_table_text(
                seq![self@.columns] + Seq::new(
                    self@.rows.len(),
                    |i: int| padded(self@.rows[i], self@.columns.len()),
                ),
            ),
    {
        if self.rows.len() == 0 {
            proof {
                reveal_strlit("No rows");
            }
            return String::from_str("No rows");
        }
        let mut records: Vec<Vec<String>> = Vec::new();
        records.push(self.column_names());
        assert(rows_view(records@) =~= seq![self@.columns]);
        self.append_padded_rows(&mut records);
        let ghost body = Seq::new(self@.rows.len(), |k: int| padded(self@.rows[k], self@.columns.len()));
        assert(rows_view(records@) == seq![self@.columns] + body);
        assert(rows_view(records@).len() == records@.len());
        assert forall|i: int| 0 <= i < records@.len() implies #[trigger] records@[i]@.len() <= records@[0]@.len() by {
            assert(rows_view(records@)[i] == texts_view(records@[i]@));
            assert(rows_view(records@)[0] == texts_view(records@[0]@));
            assert(rows_view(records@)[0] == self@.columns);
            if i > 0 {
                assert(rows_view(records@)[i] == body[i - 1]);
            }
        }
        sharp_table(records)
    }
}

} // verus!
