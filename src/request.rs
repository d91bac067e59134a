//! Request bodies: the field mappings of a new collection, and a search.
use vstd::prelude::*;
use crate::document::{lemma_object_view_index, set_entry, set_entry_in};
use crate::json::{json_view, object_view, JsonValue, JsonView};
use crate::table::texts_view;
use crate::text::{decimal, decimal_text, find_first, first_at, lemma_first_at_unique};

verus! {

/// A `field:type` mapping split into its field and its type: the text before
/// the first colon, and the text after it up to the next colon. Nothing for a
/// text without a colon.
pub open spec fn colon_split(m: Seq<char>) -> Option<(Seq<char>, Seq<char>)> {
    if exists|i: int| first_at(m, ':', i) {
        let i = choose|i: int| first_at(m, ':', i);
        let rest = m.skip(i + 1);
        let t = if exists|j: int| first_at(rest, ':', j) {
            rest.take(choose|j: int| first_at(rest, ':', j))
        } else {
            rest
        };
        Some((m.take(i), t))
    } else {
        None
    }
}

/// The mapping of one field: `{"type": t}`.
pub open spec fn type_mapping_view(t: Seq<char>) -> JsonView {
    JsonView::Object(seq![("type"@, JsonView::Str(t))])
}

/// The field properties that mappings give, a later mapping of a field
/// replacing an earlier one; nothing when a mapping has no colon.
pub open spec fn properties_view(mappings: Seq<Seq<char>>) -> Option<Seq<(Seq<char>, JsonView)>>
    decreases mappings.len(),
{
    if mappings.len() == 0 {
        Some(Seq::empty())
    } else {
        match properties_view(mappings.drop_last()) {
            None => None,
            Some(p) => match colon_split(mappings.last()) {
                None => None,
                Some((f, t)) => Some(set_entry(p, f, type_mapping_view(t))),
            },
        }
    }
}

/// The body that creates a collection with field properties:
/// `{"mappings": {"properties": {...}}}`.
pub open spec fn index_body_view(props: Seq<(Seq<char>, JsonView)>) -> JsonView {
    JsonView::Object(seq![("mappings"@, JsonView::Object(seq![("properties"@, JsonView::Object(props))]))])
}

/// The body of a search: every document matches when there is no query text
/// (which travels apart from the body), and `size` bounds the hits when a
/// limit is given.
pub open spec fn search_body_view(has_query: bool, limit: Option<u16>) -> JsonView {
    let q: Seq<(Seq<char>, JsonView)> = if has_query {
        Seq::empty()
    } else {
        seq![("query"@, JsonView::Object(seq![("match_all"@, JsonView::Object(Seq::empty()))]))]
    };
    JsonView::Object(
        match limit {
            Some(n) => q.push(("size"@, JsonView::Number(decimal(n as nat)))),
            None => q,
        },
    )
}

/// A mapping with one entry.
fn single_entry(key: &str, value: JsonValue) -> (r: JsonValue)
    ensures
        json_view(r) == JsonView::Object(seq![(key@, json_view(value))]),
{
    let mut entries: Vec<(String, JsonValue)> = Vec::new();
    let k = String::from_str(key);
    entries.push((k, value));
    proof {
        lemma_object_view_index(entries@);
    }
    assert(object_view(entries@) =~= seq![(key@, json_view(value))]);
    JsonValue::Object(entries)
}

/// Splits a `field:type` mapping into its field and its type.
pub fn mapping_pair(m: &str) -> (r: Option<(String, String)>)
    ensures
        match r {
            Some((f, t)) => colon_split(m@) == Some((f@, t@)),
            None => colon_split(m@) is None,
        },
{
    let n = m.unicode_len();
    match find_first(m, ':') {
        None => {
            assert(!exists|i: int| first_at(m@, ':', i));
            None
        },
        Some(i) => {
            proof {
                let c = choose|c: int| first_at(m@, ':', c);
                lemma_first_at_unique(m@, ':', c, i as int);
            }
            let field = m.substring_char(0, i).to_owned();
            let rest = m.substring_char(i + 1, n);
            assert(rest@ == m@.skip(i + 1));
            let t = match find_first(rest, ':') {
                None => {
                    assert(!exists|j: int| first_at(rest@, ':', j));
                    rest.to_owned()
                },
                Some(j) => {
                    proof {
                        let c = choose|c: int| first_at(rest@, ':', c);
                        lemma_first_at_unique(rest@, ':', c, j as int);
                    }
                    rest.substring_char(0, j).to_owned()
                },
            };
            assert(field@ == m@.take(i as int));
            Some((field, t))
        },
    }
}

/// The body that creates a collection whose fields have the types that
/// `field:type` mappings give; nothing when a mapping has no colon.
pub fn index_body(mappings: &Vec<String>) -> (r: Option<JsonValue>)
    ensures
        match r {
            Some(b) => properties_view(texts_view(mappings@)) matches Some(p) && json_view(b) == index_body_view(p),
            None => properties_view(texts_view(mappings@)) is None,
        },
{
    proof {
        reveal_strlit("type");
    }
    let ghost mv = texts_view(mappings@);
    let mut props: Vec<(String, JsonValue)> = Vec::new();
    let mut i: usize = 0;
    assert(object_view(props@) =~= Seq::<(Seq<char>, JsonView)>::empty());
    assert(mv.take(0) =~= Seq::<Seq<char>>::empty());
    while i < mappings.len()
        invariant
            0 <= i <= mappings.len(),
            mv == texts_view(mappings@),
            properties_view(mv.take(i as int)) == Some(object_view(props@)),
        decreases mappings.len() - i,
    {
        assert(mv.take(i + 1).drop_last() =~= mv.take(i as int));
        assert(mv.take(i + 1).last() == mappings@[i as int]@);
        match mapping_pair(mappings[i].as_str()) {
            None => {
                proof {
                    lemma_properties_failure_stays(mv, i as int + 1);
                }
                return None;
            },
            Some((f, t)) => {
                let mapping = single_entry("type", JsonValue::String(t));
                set_entry_in(&mut props, f, mapping);
            },
        }
        i = i + 1;
    }
    assert(mv.take(mappings.len() as int) =~= mv);
    let inner = single_entry("properties", JsonValue::Object(props));
    Some(single_entry("mappings", inner))
}

/// Once a mapping without a colon is met, later mappings do not change that.
proof fn lemma_properties_failure_stays(mv: Seq<Seq<char>>, k: int)
    requires
        0 <= k <= mv.len(),
        properties_view(mv.take(k)) is None,
    ensures
        properties_view(mv) is None,
    decreases mv.len() - k,
{
    if k < mv.len() {
        assert(mv.take(k + 1).drop_last() =~= mv.take(k));
        lemma_properties_failure_stays(mv, k + 1);
    } else {
        assert(mv.take(k) =~= mv);
    }
}

/// The body of a search: every document matches when there is no query
/// text, and `size` bounds the hits when a limit is given.
pub fn search_body(query: &Option<String>, limit: Option<u16>) -> (r: JsonValue)
    ensures
        json_view(r) == search_body_view(query is Some, limit),
{
    let mut entries: Vec<(String, JsonValue)> = Vec::new();
    let ghost q: Seq<(Seq<char>, JsonView)> = if query is Some {
        Seq::empty()
    } else {
        seq![("query"@, JsonView::Object(seq![("match_all"@, JsonView::Object(Seq::empty()))]))]
    };
    if query.is_none() {
        let none: Vec<(String, JsonValue)> = Vec::new();
        proof {
            lemma_object_view_index(none@);
        }
        assert(object_view(none@) =~= Seq::<(Seq<char>, JsonView)>::empty());
        let all = single_entry("match_all", JsonValue::Object(none));
        entries.push((String::from_str("query"), all));
    }
    proof {
        lemma_object_view_index(entries@);
    }
    assert(object_view(entries@) =~= q);
    if let Some(n) = limit {
        entries.push((String::from_str("size"), JsonValue::Number(decimal_text(n as u64))));
        proof {
            lemma_object_view_index(entries@);
        }
        assert(object_view(entries@) =~= q.push(("size"@, JsonView::Number(decimal(n as nat)))));
    }
    JsonValue::Object(entries)
}

} // verus!
