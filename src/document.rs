//! Documents: field names mapped to semi-structured values.
use vstd::prelude::*;
use crate::json::{json_view, object_view, JsonValue, JsonView};

verus! {

/// The entries of a mapping as the contracts see them: each name as text.
pub open spec fn entries_view(entries: Seq<(String, JsonValue)>) -> Seq<(Seq<char>, JsonValue)> {
    entries.map_values(|e: (String, JsonValue)| (e.0@, e.1))
}

/// The position of the first entry named `k`, or -1 when there is none.
pub open spec fn key_index<V>(entries: Seq<(Seq<char>, V)>, k: Seq<char>) -> int
    decreases entries.len(),
{
    if entries.len() == 0 {
        -1
    } else if entries[0].0 == k {
        0
    } else {
        let r = key_index(entries.drop_first(), k);
        if r < 0 {
            -1
        } else {
            r + 1
        }
    }
}

/// The value of the field named `k`, if there is one.
pub open spec fn field_of<V>(entries: Seq<(Seq<char>, V)>, k: Seq<char>) -> Option<V> {
    let i = key_index(entries, k);
    if i < 0 {
        None
    } else {
        Some(entries[i].1)
    }
}

/// The entries after setting field `k` to `v`: an existing field keeps its
/// place and takes the new value; a new field goes last.
pub open spec fn set_entry<V>(entries: Seq<(Seq<char>, V)>, k: Seq<char>, v: V) -> Seq<(Seq<char>, V)> {
    let i = key_index(entries, k);
    if i < 0 {
        entries.push((k, v))
    } else {
        entries.update(i, (k, v))
    }
}

/// The field names, in order.
pub open spec fn keys_of<V>(entries: Seq<(Seq<char>, V)>) -> Seq<Seq<char>> {
    entries.map_values(|e: (Seq<char>, V)| e.0)
}

/// The first entry named `k` is at `i` when no earlier entry has that name.
pub proof fn lemma_key_index_at<V>(entries: Seq<(Seq<char>, V)>, k: Seq<char>, i: int)
    requires
        0 <= i < entries.len(),
        entries[i].0 == k,
        forall|j: int| 0 <= j < i ==> entries[j].0 != k,
    ensures
        key_index(entries, k) == i,
    decreases i,
{
    if i > 0 {
        let rest = entries.drop_first();
        assert forall|j: int| 0 <= j < i - 1 implies rest[j].0 != k by {
            assert(rest[j] == entries[j + 1]);
        }
        lemma_key_index_at(rest, k, i - 1);
    }
}

/// No entry named `k` means no position for it.
pub proof fn lemma_key_index_absent<V>(entries: Seq<(Seq<char>, V)>, k: Seq<char>)
    requires
        forall|j: int| 0 <= j < entries.len() ==> entries[j].0 != k,
    ensures
        key_index(entries, k) == -1,
    decreases entries.len(),
{
    if entries.len() > 0 {
        let rest = entries.drop_first();
        assert forall|j: int| 0 <= j < rest.len() implies rest[j].0 != k by {
            assert(rest[j] == entries[j + 1]);
        }
        lemma_key_index_absent(rest, k);
    }
}

/// A found position holds the name, and no earlier entry does.
pub proof fn lemma_key_index_found<V>(entries: Seq<(Seq<char>, V)>, k: Seq<char>)
    ensures
        -1 <= key_index(entries, k) < entries.len(),
        key_index(entries, k) >= 0 ==> entries[key_index(entries, k)].0 == k,
        key_index(entries, k) < 0 ==> forall|j: int| 0 <= j < entries.len() ==> entries[j].0 != k,
        forall|j: int| 0 <= j < key_index(entries, k) ==> entries[j].0 != k,
    decreases entries.len(),
{
    if entries.len() > 0 {
        let rest = entries.drop_first();
        lemma_key_index_found(rest, k);
        assert forall|j: int| 0 <= j < rest.len() implies rest[j] == entries[j + 1] by {}
        if entries[0].0 != k && key_index(rest, k) < 0 {
            assert forall|j: int| 0 <= j < entries.len() implies entries[j].0 != k by {
                if j > 0 {
                    assert(rest[j - 1] == entries[j]);
                }
            }
        }
        if entries[0].0 != k && key_index(rest, k) >= 0 {
            assert forall|j: int| 0 <= j < key_index(entries, k) implies entries[j].0 != k by {
                if j > 0 {
                    assert(rest[j - 1] == entries[j]);
                }
            }
        }
    }
}

/// The view of mapping entries holds each entry's name and value view, in place.
pub proof fn lemma_object_view_index(entries: Seq<(String, JsonValue)>)
    ensures
        object_view(entries).len() == entries.len(),
        forall|i: int| 0 <= i < entries.len() ==> #[trigger] object_view(entries)[i] == (entries[i].0@, json_view(entries[i].1)),
    decreases entries.len(),
{
    if entries.len() > 0 {
        lemma_object_view_index(entries.drop_last());
        assert forall|i: int| 0 <= i < entries.len() implies #[trigger] object_view(entries)[i] == (entries[i].0@, json_view(entries[i].1)) by {
            if i < entries.len() - 1 {
                assert(entries.drop_last()[i] == entries[i]);
            }
        }
    }
}

/// The first position of a name depends on the names alone.
pub proof fn lemma_key_index_same_keys<V, W>(a: Seq<(Seq<char>, V)>, b: Seq<(Seq<char>, W)>, k: Seq<char>)
    requires
        a.len() == b.len(),
        forall|i: int| 0 <= i < a.len() ==> a[i].0 == b[i].0,
    ensures
        key_index(a, k) == key_index(b, k),
    decreases a.len(),
{
    if a.len() > 0 {
        assert forall|i: int| 0 <= i < a.len() - 1 implies a.drop_first()[i].0 == b.drop_first()[i].0 by {
            assert(a.drop_first()[i] == a[i + 1]);
            assert(b.drop_first()[i] == b[i + 1]);
        }
        lemma_key_index_same_keys(a.drop_first(), b.drop_first(), k);
    }
}

/// The position of the first entry named `key`, if any.
fn find_entry(entries: &Vec<(String, JsonValue)>, key: &String) -> (r: Option<usize>)
    ensures
        match r {
            Some(i) => i < entries@.len() && key_index(entries_view(entries@), key@) == i as int,
            None => key_index(entries_view(entries@), key@) == -1,
        },
{
    let ghost ev = entries_view(entries@);
    let mut i: usize = 0;
    while i < entries.len()
        invariant
            0 <= i <= entries.len(),
            ev == entries_view(entries@),
            ev.len() == entries.len(),
            forall|j: int| 0 <= j < i ==> ev[j].0 != key@,
        decreases entries.len() - i,
    {
        if entries[i].0 == *key {
            proof {
                lemma_key_index_at(ev, key@, i as int);
            }
            return Some(i);
        }
        i = i + 1;
    }
    proof {
        lemma_key_index_absent(ev, key@);
    }
    None
}

/// Sets the entry named `key` to `value`, in place when there is one, else last.
pub fn set_entry_in(entries: &mut Vec<(String, JsonValue)>, key: String, value: JsonValue)
    ensures
        entries_view(final(entries)@) == set_entry(entries_view(old(entries)@), key@, value),
        object_view(final(entries)@) == set_entry(object_view(old(entries)@), key@, json_view(value)),
{
    let ghost k = key@;
    let ghost v = value;
    let ghost ov = object_view(old(entries)@);
    proof {
        lemma_object_view_index(old(entries)@);
        lemma_key_index_same_keys(entries_view(old(entries)@), ov, k);
    }
    match find_entry(entries, &key) {
        Some(i) => {
            entries.set(i, (key, value));
            assert(entries_view(entries@) =~= entries_view(old(entries)@).update(i as int, (k, v)));
            proof {
                lemma_object_view_index(entries@);
            }
            assert(object_view(entries@) =~= ov.update(i as int, (k, json_view(v))));
        },
        None => {
            entries.push((key, value));
            assert(entries_view(entries@) =~= entries_view(old(entries)@).push((k, v)));
            assert(entries@.drop_last() == old(entries)@);
        },
    }
}

/// A schema-less record: field names, each with a value.
#[derive(Debug)]
pub struct Document {
    entries: Vec<(String, JsonValue)>,
}

impl View for Document {
    type V = Seq<(Seq<char>, JsonValue)>;

    closed spec fn view(&self) -> Seq<(Seq<char>, JsonValue)> {
        entries_view(self.entries@)
    }
}

impl Document {
    /// A document with no fields.
    pub fn new() -> (r: Document)
        ensures
            r@ == Seq::<(Seq<char>, JsonValue)>::empty(),
    {
        let r = Document { entries: Vec::new() };
        assert(r@ =~= Seq::<(Seq<char>, JsonValue)>::empty());
        r
    }

    /// Sets field `key` to `value`, replacing the value it had.
    pub fn set(&mut self, key: String, value: JsonValue)
        ensures
            final(self)@ == set_entry(old(self)@, key@, value),
    {
        set_entry_in(&mut self.entries, key, value);
    }

    /// The value of field `key`, if the document has it.
    pub fn get(&self, key: &String) -> (r: Option<&JsonValue>)
        ensures
            match r {
                Some(v) => field_of(self@, key@) == Some(*v),
                None => field_of(self@, key@) is None,
            },
    {
        match find_entry(&self.entries, key) {
            Some(i) => Some(&self.entries[i].1),
            None => None,
        }
    }

    /// The number of fields.
    pub fn len(&self) -> (r: usize)
        ensures
            r == self@.len(),
    {
        self.entries.len()
    }

    /// The name of the field at position `i`.
    pub fn key_at(&self, i: usize) -> (r: &String)
        requires
            i < self@.len(),
        ensures
            r@ == self@[i as int].0,
    {
        &self.entries[i].0
    }

    /// The value of the field at position `i`.
    pub fn value_at(&self, i: usize) -> (r: &JsonValue)
        requires
            i < self@.len(),
        ensures
            *r == self@[i as int].1,
    {
        &self.entries[i].1
    }
}

} // verus!
