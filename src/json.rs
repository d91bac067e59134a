//! Semi-structured values and schema-less documents.
use vstd::prelude::*;

verus! {

/// A loosely-typed value as the service exchanges it: a closed union, so that
/// rendering it as text is total.
#[derive(Debug)]
pub enum JsonValue {
    Null,
    Bool(bool),
    /// A number, held as its canonical decimal text.
    Number(String),
    String(String),
    Array(Vec<JsonValue>),
    /// The entries of a mapping, in the order they were given.
    Object(Vec<(String, JsonValue)>),
}

/// A lower-case hexadecimal digit.
pub open spec fn hex_digit(d: nat) -> char {
    if d < 10 {
        ((d + '0' as nat) as u32) as char
    } else {
        ((d - 10 + 'a' as nat) as u32) as char
    }
}

/// How one character stands inside a JSON string literal: a quote and a
/// backslash are escaped, the control characters below 0x20 take their short
/// escape or `\u00` and two hexadecimal digits, and every other character
/// stands as it is.
pub open spec fn escape_char(c: char) -> Seq<char> {
    if c == '"' {
        seq!['\\', '"']
    } else if c == '\\' {
        seq!['\\', '\\']
    } else if c == '\u{8}' {
        seq!['\\', 'b']
    } else if c == '\t' {
        seq!['\\', 't']
    } else if c == '\n' {
        seq!['\\', 'n']
    } else if c == '\u{c}' {
        seq!['\\', 'f']
    } else if c == '\r' {
        seq!['\\', 'r']
    } else if (c as u32) < 0x20 {
        seq!['\\', 'u', '0', '0', hex_digit((c as u32 / 16) as nat), hex_digit((c as u32 % 16) as nat)]
    } else {
        seq![c]
    }
}

/// The characters of a text, each as it stands inside a JSON string literal.
pub open spec fn escaped(s: Seq<char>) -> Seq<char>
    decreases s.len(),
{
    if s.len() == 0 {
        Seq::empty()
    } else {
        escaped(s.drop_last()) + escape_char(s.last())
    }
}

/// The JSON string literal for a text: quoted, with its characters escaped.
pub open spec fn json_quoted(s: Seq<char>) -> Seq<char> {
    seq!['"'] + escaped(s) + seq!['"']
}

/// Relies on serde_json::to_string for a `str`: the text in double quotes,
/// escaped as its `format_escaped_str` does (serializing a `str` into a
/// `Vec` does not fail).
#[verifier::external_body]
fn quote_json_string(s: &str) -> (r: String)
    ensures
        r@ == json_quoted(s@),
{
    serde_json::to_string(s).unwrap_or_default()
}

/// The compact JSON text of a value.
pub open spec fn canonical_text(v: JsonValue) -> Seq<char>
    decreases v,
{
    match v {
        JsonValue::Null => "null"@,
        JsonValue::Bool(b) => if b {
            "true"@
        } else {
            "false"@
        },
        JsonValue::Number(t) => t@,
        JsonValue::String(s) => json_quoted(s@),
        JsonValue::Array(items) => "["@ + items_text(items@) + "]"@,
        JsonValue::Object(entries) => "{"@ + entries_text(entries@) + "}"@,
    }
}

/// The texts of values, separated by commas.
pub open spec fn items_text(items: Seq<JsonValue>) -> Seq<char>
    decreases items,
{
    if items.len() == 0 {
        Seq::empty()
    } else if items.len() == 1 {
        canonical_text(items[0])
    } else {
        items_text(items.drop_last()) + ","@ + canonical_text(items.last())
    }
}

/// The texts of mapping entries (`"key":value`), separated by commas.
pub open spec fn entries_text(entries: Seq<(String, JsonValue)>) -> Seq<char>
    decreases entries,
{
    if entries.len() == 0 {
        Seq::empty()
    } else {
        let e = entries.last();
        let one = json_quoted(e.0@) + ":"@ + canonical_text(e.1);
        if entries.len() == 1 {
            one
        } else {
            entries_text(entries.drop_last()) + ","@ + one
        }
    }
}

/// A value as the contracts see it: texts as character sequences.
pub ghost enum JsonView {
    Null,
    Bool(bool),
    Number(Seq<char>),
    Str(Seq<char>),
    Array(Seq<JsonView>),
    Object(Seq<(Seq<char>, JsonView)>),
}

/// The view of a value.
pub open spec fn json_view(v: JsonValue) -> JsonView
    decreases v,
{
    match v {
        JsonValue::Null => JsonView::Null,
        JsonValue::Bool(b) => JsonView::Bool(b),
        JsonValue::Number(t) => JsonView::Number(t@),
        JsonValue::String(s) => JsonView::Str(s@),
        JsonValue::Array(items) => JsonView::Array(items_view(items@)),
        JsonValue::Object(entries) => JsonView::Object(object_view(entries@)),
    }
}

/// The views of values.
pub open spec fn items_view(items: Seq<JsonValue>) -> Seq<JsonView>
    decreases items,
{
    if items.len() == 0 {
        Seq::empty()
    } else {
        items_view(items.drop_last()).push(json_view(items.last()))
    }
}

/// The views of mapping entries.
pub open spec fn object_view(entries: Seq<(String, JsonValue)>) -> Seq<(Seq<char>, JsonView)>
    decreases entries,
{
    if entries.len() == 0 {
        Seq::empty()
    } else {
        object_view(entries.drop_last()).push((entries.last().0@, json_view(entries.last().1)))
    }
}

/// The text of a value in a table cell: a string as it is, any other value
/// as its compact JSON text.
pub open spec fn cell_text(v: JsonValue) -> Seq<char> {
    match v {
        JsonValue::String(s) => s@,
        _ => canonical_text(v),
    }
}

impl JsonValue {
    /// The compact JSON text of this value.
    #[verifier::loop_isolation(false)]
    pub fn to_text(&self) -> (r: String)
        ensures
            r@ == canonical_text(*self),
        decreases self,
    {
        proof {
            reveal_strlit("null");
            reveal_strlit("true");
            reveal_strlit("false");
            reveal_strlit("[");
            reveal_strlit("]");
            reveal_strlit("{");
            reveal_strlit("}");
            reveal_strlit(",");
            reveal_strlit(":");
        }
        match self {
            JsonValue::Null => String::from_str("null"),
            JsonValue::Bool(b) => if *b {
                String::from_str("true")
            } else {
                String::from_str("false")
            },
            JsonValue::Number(t) => t.clone(),
            JsonValue::String(s) => quote_json_string(s.as_str()),
            JsonValue::Array(items) => {
                let mut out = String::from_str("[");
                let mut i: usize = 0;
                while i < items.len()
                    invariant
                        0 <= i <= items.len(),
                        *self == JsonValue::Array(*items),
                        out@ == "["@ + items_text(items@.subrange(0, i as int)),
                    decreases items.len() - i,
                {
                    proof {
                        vstd::std_specs::vec::axiom_vec_index_decreases(*items, i as int);
                    }
                    let t = items[i].to_text();
                    let ghost pre = items@.subrange(0, i as int);
                    let ghost next = items@.subrange(0, i + 1);
                    assert(next.drop_last() == pre);
                    assert(next.last() == items@[i as int]);
                    if i > 0 {
                        out.append(",");
                    }
                    out.append(t.as_str());
                    i = i + 1;
                }
                assert(items@.subrange(0, items.len() as int) == items@);
                out.append("]");
                out
            },
            JsonValue::Object(entries) => {
                let mut out = String::from_str("{");
                let mut i: usize = 0;
                while i < entries.len()
                    invariant
                        0 <= i <= entries.len(),
                        *self == JsonValue::Object(*entries),
                        out@ == "{"@ + entries_text(entries@.subrange(0, i as int)),
                    decreases entries.len() - i,
                {
                    proof {
                        vstd::std_specs::vec::axiom_vec_index_decreases(*entries, i as int);
                        assert(decreases_to!(entries[i as int] => entries[i as int].1));
                    }
                    let key = quote_json_string(entries[i].0.as_str());
                    let t = entries[i].1.to_text();
                    let ghost pre = entries@.subrange(0, i as int);
                    let ghost next = entries@.subrange(0, i + 1);
                    assert(next.drop_last() == pre);
                    assert(next.last() == entries@[i as int]);
                    if i > 0 {
                        out.append(",");
                    }
                    out.append(key.as_str());
                    out.append(":");
                    out.append(t.as_str());
                    i = i + 1;
                }
                assert(entries@.subrange(0, entries.len() as int) == entries@);
                out.append("}");
                out
            },
        }
    }

    /// The text of this value in a table cell: a string as it is, any other
    /// value as its compact JSON text.
    pub fn cell_text(&self) -> (r: String)
        ensures
            r@ == cell_text(*self),
    {
        match self {
            JsonValue::String(s) => s.clone(),
            _ => self.to_text(),
        }
    }
}

} // verus!
