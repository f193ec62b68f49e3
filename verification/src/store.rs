//! The document store: a Loro document with one root map per kind of entity,
//! one for relations and one for bookkeeping. Each entry of a root map is a
//! map of named fields: the stored record of one entity or relation.
use vstd::prelude::*;
use crate::entity::{Component, Decision, Link, Note, Prompt, Relation, Task};
use crate::listing::{
    link_readable, list_components, list_decisions, list_links, list_notes, list_prompts,
    list_relations, list_tasks, lists_records,
};
use crate::clock::{uuid_string, uuid_text};
use crate::entity::composite_key_text;
use crate::lookup::{recorded_after, sequence_after, Catalog, EntityKind};
use crate::order::instant_key;
use crate::record::{
    base_readable, component_read, decision_read, link_read, note_read, prompt_read,
    relation_read, relation_readable, task_read, texts, FieldValue, Record,
    component_record, decision_record, link_record, note_record, prompt_record, relation_record, task_record,
    written_component, written_decision, written_link, written_note, written_prompt, written_relation, written_task,
    field_of, int_of, items_of, text_of, read_decision, read_back_base, decision_status_read, kept_instants, printable,
    lemma_decision_read_back,
};
use crate::request::opt_view;
use crate::text::views;
use crate::error::MedullaError;

verus! {

// ---------------------------------------------------------------------------
// The document and what it holds
// ---------------------------------------------------------------------------

/// A Loro document. A `LoroDoc` shares its state with its clones; the library
/// never clones one, reads it through `&` and changes it only through `&mut`, so
/// what it holds changes only where a contract here says so.
#[verifier::external_type_specification]
#[verifier::external_body]
pub struct ExLoroDoc(loro::LoroDoc);

/// A field's value as the document holds it: a text, an integer, a list (each
/// item a text, or `None` for any other value), a table (each value a text, or
/// `None` for any other value), or any other value.
pub enum Stored {
    Text(Seq<char>),
    Int(i64),
    List(Seq<Option<Seq<char>>>),
    Table(Map<Seq<char>, Option<Seq<char>>>),
    Other,
}

/// The fields of a stored entry, by name.
pub type Fields = Map<Seq<char>, Stored>;

/// What a document holds: for each root map that has been used, its entries by
/// key; an entry is `Some` of its fields where it is a map, `None` where it is
/// any other value.
pub type Contents = Map<Seq<char>, Map<Seq<char>, Option<Fields>>>;

/// What a Loro document holds.
pub uninterp spec fn doc_entries(doc: loro::LoroDoc) -> Contents;

/// What a document restored from a snapshot holds; `None` where the bytes are
/// not a snapshot that decodes.
pub uninterp spec fn snapshot_entries(bytes: Seq<u8>) -> Option<Contents>;

/// The entries of the root map `map` (none where it was never used).
pub open spec fn root(c: Contents, map: Seq<char>) -> Map<Seq<char>, Option<Fields>> {
    if c.dom().contains(map) {
        c[map]
    } else {
        Map::empty()
    }
}

/// Two contents hold the same entries in every root map.
pub open spec fn same_roots(a: Contents, b: Contents) -> bool {
    forall|m: Seq<char>| #[trigger] root(a, m) == root(b, m)
}

/// The fields of the entry `key` of `map`, where it is a map.
pub open spec fn entry_fields(c: Contents, map: Seq<char>, key: Seq<char>) -> Option<Fields> {
    if root(c, map).dom().contains(key) {
        root(c, map)[key]
    } else {
        None
    }
}

/// The field `name` of the entry `key` of `map`.
pub open spec fn field_at(c: Contents, map: Seq<char>, key: Seq<char>, name: Seq<char>) -> Option<Stored> {
    match entry_fields(c, map, key) {
        Some(f) => if f.dom().contains(name) {
            Some(f[name])
        } else {
            None
        },
        None => None,
    }
}

/// The fields of an entry before a write to it: its fields where it is a map,
/// none otherwise.
pub open spec fn fields_or_empty(c: Contents, map: Seq<char>, key: Seq<char>) -> Fields {
    match entry_fields(c, map, key) {
        Some(f) => f,
        None => Map::empty(),
    }
}

/// `new` differs from `old` at most in the root map `map`, which holds `entries`.
pub open spec fn only_root_changed(old: Contents, new: Contents, map: Seq<char>, entries: Map<Seq<char>, Option<Fields>>) -> bool {
    &&& root(new, map) == entries
    &&& forall|m: Seq<char>| m != map ==> #[trigger] root(new, m) == root(old, m)
}

/// `new` differs from `old` only in the fields of the entry `key` of `map`, which
/// are `fields`.
pub open spec fn only_entry_changed(old: Contents, new: Contents, map: Seq<char>, key: Seq<char>, fields: Fields) -> bool {
    only_root_changed(old, new, map, root(old, map).insert(key, Some(fields)))
}

/// The text views of optional texts.
pub open spec fn opt_texts(items: Seq<Option<String>>) -> Seq<Option<Seq<char>>> {
    items.map_values(|x: Option<String>| match x {
        Some(s) => Some(s@),
        None => None,
    })
}

/// The table that key/value pairs make, later pairs over earlier ones.
pub open spec fn table_of(pairs: Seq<(String, Option<String>)>) -> Map<Seq<char>, Option<Seq<char>>>
    decreases pairs.len(),
{
    if pairs.len() == 0 {
        Map::empty()
    } else {
        table_of(pairs.drop_last()).insert(
            pairs.last().0@,
            match pairs.last().1 {
                Some(s) => Some(s@),
                None => None,
            },
        )
    }
}

/// No key occurs twice among the pairs.
pub open spec fn distinct_keys(pairs: Seq<(String, Option<String>)>) -> bool {
    forall|i: int, j: int| 0 <= i < j < pairs.len() ==> (#[trigger] pairs[i]).0@ != (#[trigger] pairs[j]).0@
}

/// No two texts are the same.
pub open spec fn distinct_texts(v: Seq<String>) -> bool {
    forall|i: int, j: int| 0 <= i < j < v.len() ==> (#[trigger] v[i])@ != (#[trigger] v[j])@
}

/// A field value of a record stands for what the document holds.
pub open spec fn reads_as(v: FieldValue, s: Stored) -> bool {
    match v {
        FieldValue::Text(t) => s == Stored::Text(t@),
        FieldValue::Int(n) => s == Stored::Int(n),
        FieldValue::List(items) => s == Stored::List(opt_texts(items@)),
        FieldValue::Table(pairs) => distinct_keys(pairs@) && s == Stored::Table(table_of(pairs@)),
        FieldValue::Other => s == Stored::Other,
    }
}

/// No field name occurs twice.
pub open spec fn distinct_names(f: Seq<(String, FieldValue)>) -> bool {
    forall|i: int, j: int| 0 <= i < j < f.len() ==> (#[trigger] f[i]).0@ != (#[trigger] f[j]).0@
}

/// A record is the stored fields: one field for each stored name, each once,
/// with the value it holds.
pub open spec fn record_of_fields(r: Record, fields: Fields) -> bool {
    &&& distinct_names(r.fields@)
    &&& forall|i: int| 0 <= i < r.fields@.len() ==> fields.dom().contains((#[trigger] r.fields@[i]).0@)
        && reads_as(r.fields@[i].1, fields[r.fields@[i].0@])
    &&& forall|n: Seq<char>| #[trigger] fields.dom().contains(n) ==> exists|i: int| 0 <= i < r.fields@.len() && (#[trigger] r.fields@[i]).0@ == n
}

// ---------------------------------------------------------------------------
// Trusted access to the document
// ---------------------------------------------------------------------------

/// `LoroDoc::new`: a document that holds nothing.
#[verifier::external_body]
pub(crate) fn new_doc() -> (r: loro::LoroDoc)
    ensures
        doc_entries(r).dom().is_empty(),
{
    loro::LoroDoc::new()
}

/// `LoroDoc::import` of a snapshot into a document made for it: on success it
/// holds what the snapshot holds; it fails exactly where the bytes do not decode.
#[verifier::external_body]
pub(crate) fn load_snapshot(bytes: &[u8]) -> (r: Result<loro::LoroDoc, String>)
    ensures
        r matches Ok(d) ==> (snapshot_entries(bytes@) matches Some(c) && same_roots(c, doc_entries(d))),
        r is Err ==> snapshot_entries(bytes@) is None,
{
    let doc = loro::LoroDoc::new();
    match doc.import(bytes) {
        Ok(_) => Ok(doc),
        Err(e) => Err(e.to_string()),
    }
}

/// `LoroDoc::export` in snapshot mode: the bytes restore what the document holds.
#[verifier::external_body]
pub(crate) fn export_snapshot(doc: &loro::LoroDoc) -> (r: Result<Vec<u8>, String>)
    ensures
        r matches Ok(b) ==> (snapshot_entries(b@) matches Some(c) && same_roots(c, doc_entries(*doc))),
{
    doc.export(loro::ExportMode::Snapshot).map_err(|e| e.to_string())
}

/// The keys of a root map (its deep value), each once, each with whether its
/// value is a map.
#[verifier::external_body]
pub(crate) fn entry_keys(doc: &loro::LoroDoc, map: &str) -> (r: Vec<(String, bool)>)
    ensures
        forall|i: int, j: int| 0 <= i < j < r@.len() ==> (#[trigger] r@[i]).0@ != (#[trigger] r@[j]).0@,
        forall|i: int| 0 <= i < r@.len() ==> root(doc_entries(*doc), map@).dom().contains((#[trigger] r@[i]).0@)
            && r@[i].1 == root(doc_entries(*doc), map@)[r@[i].0@] is Some,
        forall|k: Seq<char>| #[trigger] root(doc_entries(*doc), map@).dom().contains(k)
            ==> exists|i: int| 0 <= i < r@.len() && (#[trigger] r@[i]).0@ == k,
{
    match doc.get_map(map).get_deep_value() {
        loro::LoroValue::Map(m) => m.iter().map(|(k, v)| (k.clone(), matches!(v, loro::LoroValue::Map(_)))).collect(),
        _ => Vec::new(),
    }
}

/// `LoroMap::get`: whether a root map holds the key, whatever its value.
#[verifier::external_body]
pub(crate) fn has_key(doc: &loro::LoroDoc, map: &str, key: &str) -> (r: bool)
    ensures
        r == root(doc_entries(*doc), map@).dom().contains(key@),
{
    doc.get_map(map).get(key).is_some()
}

/// Whether the entry `key` of `map` is a map.
#[verifier::external_body]
pub(crate) fn entry_is_map(doc: &loro::LoroDoc, map: &str, key: &str) -> (r: bool)
    ensures
        r == entry_fields(doc_entries(*doc), map@, key@) is Some,
{
    match doc.get_map(map).get(key) {
        Some(v) => matches!(v.get_deep_value(), loro::LoroValue::Map(_)),
        None => false,
    }
}

/// The field names of the entry `key` of `map`, each once, where it is a map;
/// none otherwise.
#[verifier::external_body]
pub(crate) fn field_names(doc: &loro::LoroDoc, map: &str, key: &str) -> (r: Vec<String>)
    ensures
        distinct_texts(r@),
        match entry_fields(doc_entries(*doc), map@, key@) {
            Some(f) => (forall|i: int| 0 <= i < r@.len() ==> f.dom().contains((#[trigger] r@[i])@))
                && (forall|n: Seq<char>| #[trigger] f.dom().contains(n) ==> exists|i: int| 0 <= i < r@.len() && (#[trigger] r@[i])@ == n),
            None => r@.len() == 0,
        },
{
    let entry = match doc.get_map(map).get(key) {
        Some(v) => v.get_deep_value(),
        None => return Vec::new(),
    };
    match entry {
        loro::LoroValue::Map(f) => f.keys().cloned().collect(),
        _ => Vec::new(),
    }
}

/// The field `name` of the entry `key` of `map`, where it is a text.
#[verifier::external_body]
pub(crate) fn field_text(doc: &loro::LoroDoc, map: &str, key: &str, name: &str) -> (r: Option<String>)
    ensures
        match r {
            Some(t) => field_at(doc_entries(*doc), map@, key@, name@) == Some(Stored::Text(t@)),
            None => !(field_at(doc_entries(*doc), map@, key@, name@) matches Some(Stored::Text(_))),
        },
{
    let entry = match doc.get_map(map).get(key) {
        Some(v) => v.get_deep_value(),
        None => return None,
    };
    match entry {
        loro::LoroValue::Map(f) => match f.get(name) {
            Some(loro::LoroValue::String(s)) => Some(s.to_string()),
            _ => None,
        },
        _ => None,
    }
}

/// The field `name` of the entry `key` of `map`, where it is an integer.
#[verifier::external_body]
pub(crate) fn field_int(doc: &loro::LoroDoc, map: &str, key: &str, name: &str) -> (r: Option<i64>)
    ensures
        match r {
            Some(n) => field_at(doc_entries(*doc), map@, key@, name@) == Some(Stored::Int(n)),
            None => !(field_at(doc_entries(*doc), map@, key@, name@) matches Some(Stored::Int(_))),
        },
{
    let entry = match doc.get_map(map).get(key) {
        Some(v) => v.get_deep_value(),
        None => return None,
    };
    match entry {
        loro::LoroValue::Map(f) => match f.get(name) {
            Some(loro::LoroValue::I64(n)) => Some(*n),
            _ => None,
        },
        _ => None,
    }
}

/// The field `name` of the entry `key` of `map`, where it is a list: its items,
/// each a text or `None`.
#[verifier::external_body]
pub(crate) fn field_list(doc: &loro::LoroDoc, map: &str, key: &str, name: &str) -> (r: Option<Vec<Option<String>>>)
    ensures
        match r {
            Some(items) => field_at(doc_entries(*doc), map@, key@, name@) == Some(Stored::List(opt_texts(items@))),
            None => !(field_at(doc_entries(*doc), map@, key@, name@) matches Some(Stored::List(_))),
        },
{
    let entry = match doc.get_map(map).get(key) {
        Some(v) => v.get_deep_value(),
        None => return None,
    };
    match entry {
        loro::LoroValue::Map(f) => match f.get(name) {
            Some(loro::LoroValue::List(items)) => Some(items.iter().map(|x| match x {
                loro::LoroValue::String(s) => Some(s.to_string()),
                _ => None,
            }).collect()),
            _ => None,
        },
        _ => None,
    }
}

/// The field `name` of the entry `key` of `map`, where it is a table: its
/// entries, each key once, each value a text or `None`.
#[verifier::external_body]
pub(crate) fn field_table(doc: &loro::LoroDoc, map: &str, key: &str, name: &str) -> (r: Option<Vec<(String, Option<String>)>>)
    ensures
        match r {
            Some(pairs) => distinct_keys(pairs@)
                && field_at(doc_entries(*doc), map@, key@, name@) == Some(Stored::Table(table_of(pairs@))),
            None => !(field_at(doc_entries(*doc), map@, key@, name@) matches Some(Stored::Table(_))),
        },
{
    let entry = match doc.get_map(map).get(key) {
        Some(v) => v.get_deep_value(),
        None => return None,
    };
    match entry {
        loro::LoroValue::Map(f) => match f.get(name) {
            Some(loro::LoroValue::Map(t)) => Some(t.iter().map(|(k, x)| (k.clone(), match x {
                loro::LoroValue::String(s) => Some(s.to_string()),
                _ => None,
            })).collect()),
            _ => None,
        },
        _ => None,
    }
}

/// The list held in a field before items are added to it: its items where it
/// is a list, none otherwise.
pub open spec fn list_or_empty(f: Fields, name: Seq<char>) -> Seq<Option<Seq<char>>> {
    if f.dom().contains(name) && f[name] matches Stored::List(items) {
        f[name]->List_0
    } else {
        Seq::empty()
    }
}

/// The table held in a field before entries are added to it: its entries where
/// it is a table, none otherwise.
pub open spec fn table_or_empty(f: Fields, name: Seq<char>) -> Map<Seq<char>, Option<Seq<char>>> {
    if f.dom().contains(name) && f[name] matches Stored::Table(t) {
        f[name]->Table_0
    } else {
        Map::empty()
    }
}

/// `LoroMap::delete` on a root map: the key is gone.
#[verifier::external_body]
pub(crate) fn delete_key(doc: &mut loro::LoroDoc, map: &str, key: &str) -> (r: Result<(), String>)
    ensures
        r is Ok ==> only_root_changed(doc_entries(*old(doc)), doc_entries(*final(doc)), map@, root(doc_entries(*old(doc)), map@).remove(key@)),
{
    doc.get_map(map).delete(key).map_err(|e| e.to_string())
}

/// `LoroMap::get_or_create_container` on a root map: the entry `key` is a map,
/// the one it was where it was a map, an empty one otherwise.
#[verifier::external_body]
#[allow(deprecated)]
pub(crate) fn create_entry(doc: &mut loro::LoroDoc, map: &str, key: &str) -> (r: Result<(), String>)
    ensures
        r is Ok ==> only_entry_changed(doc_entries(*old(doc)), doc_entries(*final(doc)), map@, key@, fields_or_empty(doc_entries(*old(doc)), map@, key@)),
{
    match doc.get_map(map).get_or_create_container(key, loro::LoroMap::new()) {
        Ok(_) => Ok(()),
        Err(e) => Err(e.to_string()),
    }
}

/// `LoroMap::insert` of a text as the field `name` of the entry `key` (made a
/// map first where it is none).
#[verifier::external_body]
#[allow(deprecated)]
pub(crate) fn put_text(doc: &mut loro::LoroDoc, map: &str, key: &str, name: &str, value: &str) -> (r: Result<(), String>)
    ensures
        r is Ok ==> only_entry_changed(doc_entries(*old(doc)), doc_entries(*final(doc)), map@, key@,
            fields_or_empty(doc_entries(*old(doc)), map@, key@).insert(name@, Stored::Text(value@))),
{
    let entry = doc.get_map(map).get_or_create_container(key, loro::LoroMap::new()).map_err(|e| e.to_string())?;
    entry.insert(name, value).map_err(|e| e.to_string())
}

/// `LoroMap::insert` of an integer as the field `name` of the entry `key` (made
/// a map first where it is none).
#[verifier::external_body]
#[allow(deprecated)]
pub(crate) fn put_int(doc: &mut loro::LoroDoc, map: &str, key: &str, name: &str, value: i64) -> (r: Result<(), String>)
    ensures
        r is Ok ==> only_entry_changed(doc_entries(*old(doc)), doc_entries(*final(doc)), map@, key@,
            fields_or_empty(doc_entries(*old(doc)), map@, key@).insert(name@, Stored::Int(value))),
{
    let entry = doc.get_map(map).get_or_create_container(key, loro::LoroMap::new()).map_err(|e| e.to_string())?;
    entry.insert(name, value).map_err(|e| e.to_string())
}

/// `LoroMap::get_or_create_container` of a list as the field `name` of the entry
/// `key`: the list it was where it was one, an empty one otherwise.
#[verifier::external_body]
#[allow(deprecated)]
pub(crate) fn put_list(doc: &mut loro::LoroDoc, map: &str, key: &str, name: &str) -> (r: Result<(), String>)
    ensures
        r is Ok ==> only_entry_changed(doc_entries(*old(doc)), doc_entries(*final(doc)), map@, key@,
            fields_or_empty(doc_entries(*old(doc)), map@, key@).insert(name@,
                Stored::List(list_or_empty(fields_or_empty(doc_entries(*old(doc)), map@, key@), name@)))),
{
    let entry = doc.get_map(map).get_or_create_container(key, loro::LoroMap::new()).map_err(|e| e.to_string())?;
    match entry.get_or_create_container(name, loro::LoroList::new()) {
        Ok(_) => Ok(()),
        Err(e) => Err(e.to_string()),
    }
}

/// `LoroList::push` of a text onto the list that is the field `name` of the
/// entry `key` (made an empty list first where it is none).
#[verifier::external_body]
#[allow(deprecated)]
pub(crate) fn push_item(doc: &mut loro::LoroDoc, map: &str, key: &str, name: &str, item: &str) -> (r: Result<(), String>)
    ensures
        r is Ok ==> only_entry_changed(doc_entries(*old(doc)), doc_entries(*final(doc)), map@, key@,
            fields_or_empty(doc_entries(*old(doc)), map@, key@).insert(name@,
                Stored::List(list_or_empty(fields_or_empty(doc_entries(*old(doc)), map@, key@), name@).push(Some(item@))))),
{
    let entry = doc.get_map(map).get_or_create_container(key, loro::LoroMap::new()).map_err(|e| e.to_string())?;
    let list = entry.get_or_create_container(name, loro::LoroList::new()).map_err(|e| e.to_string())?;
    list.push(item).map_err(|e| e.to_string())
}

/// `LoroMap::get_or_create_container` of a table as the field `name` of the entry
/// `key`: the table it was where it was one, an empty one otherwise.
#[verifier::external_body]
#[allow(deprecated)]
pub(crate) fn put_table(doc: &mut loro::LoroDoc, map: &str, key: &str, name: &str) -> (r: Result<(), String>)
    ensures
        r is Ok ==> only_entry_changed(doc_entries(*old(doc)), doc_entries(*final(doc)), map@, key@,
            fields_or_empty(doc_entries(*old(doc)), map@, key@).insert(name@,
                Stored::Table(table_or_empty(fields_or_empty(doc_entries(*old(doc)), map@, key@), name@)))),
{
    let entry = doc.get_map(map).get_or_create_container(key, loro::LoroMap::new()).map_err(|e| e.to_string())?;
    match entry.get_or_create_container(name, loro::LoroMap::new()) {
        Ok(_) => Ok(()),
        Err(e) => Err(e.to_string()),
    }
}

/// `LoroMap::insert` of a text under `k` in the table that is the field `name`
/// of the entry `key` (made an empty table first where it is none).
#[verifier::external_body]
#[allow(deprecated)]
pub(crate) fn put_table_entry(doc: &mut loro::LoroDoc, map: &str, key: &str, name: &str, k: &str, v: &str) -> (r: Result<(), String>)
    ensures
        r is Ok ==> only_entry_changed(doc_entries(*old(doc)), doc_entries(*final(doc)), map@, key@,
            fields_or_empty(doc_entries(*old(doc)), map@, key@).insert(name@,
                Stored::Table(table_or_empty(fields_or_empty(doc_entries(*old(doc)), map@, key@), name@).insert(k@, Some(v@))))),
{
    let entry = doc.get_map(map).get_or_create_container(key, loro::LoroMap::new()).map_err(|e| e.to_string())?;
    let table = entry.get_or_create_container(name, loro::LoroMap::new()).map_err(|e| e.to_string())?;
    table.insert(k, v).map_err(|e| e.to_string())
}

/// `LoroDoc::commit`: ends a transaction; what the document holds is unchanged.
#[verifier::external_body]
pub(crate) fn commit(doc: &mut loro::LoroDoc)
    ensures
        doc_entries(*final(doc)) == doc_entries(*old(doc)),
{
    doc.commit()
}

// ---------------------------------------------------------------------------
// Reading records
// ---------------------------------------------------------------------------

/// The field `name` of the entry `key` of `map`, as a value of a record.
fn read_field(doc: &loro::LoroDoc, map: &str, key: &str, name: &str) -> (r: FieldValue)
    requires
        field_at(doc_entries(*doc), map@, key@, name@) is Some,
    ensures
        reads_as(r, field_at(doc_entries(*doc), map@, key@, name@)->0),
{
    if let Some(t) = field_text(doc, map, key, name) {
        return FieldValue::Text(t);
    }
    if let Some(n) = field_int(doc, map, key, name) {
        return FieldValue::Int(n);
    }
    if let Some(items) = field_list(doc, map, key, name) {
        return FieldValue::List(items);
    }
    if let Some(pairs) = field_table(doc, map, key, name) {
        return FieldValue::Table(pairs);
    }
    FieldValue::Other
}

/// The record of the entry `key` of `map`, where it is a map.
pub fn read_entry(doc: &loro::LoroDoc, map: &str, key: &str) -> (r: Option<Record>)
    ensures
        match entry_fields(doc_entries(*doc), map@, key@) {
            Some(f) => r matches Some(rec) && record_of_fields(rec, f),
            None => r is None,
        },
{
    if !entry_is_map(doc, map, key) {
        return None;
    }
    let names = field_names(doc, map, key);
    let ghost c = doc_entries(*doc);
    let mut fields: Vec<(String, FieldValue)> = Vec::new();
    let mut i: usize = 0;
    while i < names.len()
        invariant
            c == doc_entries(*doc),
            entry_fields(c, map@, key@) is Some,
            i <= names@.len(),
            fields@.len() == i,
            distinct_texts(names@),
            entry_fields(c, map@, key@) matches Some(f) ==> (forall|j: int| 0 <= j < names@.len() ==> f.dom().contains((#[trigger] names@[j])@)),
            forall|j: int| 0 <= j < i ==> (#[trigger] fields@[j]).0@ == names@[j]@,
            forall|j: int| 0 <= j < i ==> (entry_fields(c, map@, key@) matches Some(f)
                && reads_as((#[trigger] fields@[j]).1, f[fields@[j].0@])),
        decreases names.len() - i,
    {
        let v = read_field(doc, map, key, names[i].as_str());
        let name = names[i].clone();
        assert(name@ == names@[i as int]@);
        fields.push((name, v));
        i = i + 1;
    }
    let r = Record { fields };
    proof {
        let f = entry_fields(c, map@, key@)->0;
        assert forall|n: Seq<char>| #[trigger] f.dom().contains(n) implies exists|j: int| 0 <= j < r.fields@.len() && (#[trigger] r.fields@[j]).0@ == n by {
            let j = choose|j: int| 0 <= j < names@.len() && (#[trigger] names@[j])@ == n;
            assert(r.fields@[j].0@ == n);
        }
    }
    Some(r)
}

/// `recs` are the records of the entries `keys` of `map`, which are exactly its
/// entries that are maps, each once.
pub open spec fn records_at(c: Contents, map: Seq<char>, recs: Seq<Record>, keys: Seq<Seq<char>>) -> bool {
    &&& keys.len() == recs.len()
    &&& keys.no_duplicates()
    &&& forall|i: int| 0 <= i < keys.len() ==> (entry_fields(c, map, #[trigger] keys[i]) matches Some(f)
        && record_of_fields(recs[i], f))
    &&& forall|k: Seq<char>| #[trigger] entry_fields(c, map, k) is Some ==> keys.contains(k)
}

/// `recs` are the records the root map `map` holds: one for each entry that is
/// a map, in some order.
pub open spec fn holds_records(c: Contents, map: Seq<char>, recs: Seq<Record>) -> bool {
    exists|keys: Seq<Seq<char>>| #[trigger] records_at(c, map, recs, keys)
}

/// The records of the entries of `map` that are maps.
pub fn map_records(doc: &loro::LoroDoc, map: &str) -> (r: Vec<Record>)
    ensures
        holds_records(doc_entries(*doc), map@, r@),
{
    let ghost c = doc_entries(*doc);
    let keys = entry_keys(doc, map);
    let mut out: Vec<Record> = Vec::new();
    let ghost mut ks: Seq<Seq<char>> = Seq::empty();
    let mut i: usize = 0;
    while i < keys.len()
        invariant
            c == doc_entries(*doc),
            i <= keys@.len(),
            forall|a: int, b: int| 0 <= a < b < keys@.len() ==> (#[trigger] keys@[a]).0@ != (#[trigger] keys@[b]).0@,
            forall|a: int| 0 <= a < keys@.len() ==> root(c, map@).dom().contains((#[trigger] keys@[a]).0@)
                && keys@[a].1 == root(c, map@)[keys@[a].0@] is Some,
            ks.len() == out@.len(),
            ks.no_duplicates(),
            forall|x: int| 0 <= x < ks.len() ==> (entry_fields(c, map@, #[trigger] ks[x]) matches Some(f)
                && record_of_fields(out@[x], f)),
            forall|x: int| 0 <= x < ks.len() ==> exists|a: int| 0 <= a < i && (#[trigger] keys@[a]).0@ == #[trigger] ks[x],
            forall|a: int| 0 <= a < i && (#[trigger] keys@[a]).1 ==> ks.contains(keys@[a].0@),
        decreases keys.len() - i,
    {
        if keys[i].1 {
            if let Some(rec) = read_entry(doc, map, keys[i].0.as_str()) {
                proof {
                    assert(!ks.contains(keys@[i as int].0@));
                }
                out.push(rec);
                proof {
                    let old_ks = ks;
                    ks = ks.push(keys@[i as int].0@);
                    assert(ks[ks.len() - 1] == keys@[i as int].0@);
                    assert forall|a: int| 0 <= a < i && (#[trigger] keys@[a]).1 implies ks.contains(keys@[a].0@) by {
                        let x = choose|x: int| 0 <= x < old_ks.len() && old_ks[x] == keys@[a].0@;
                        assert(ks[x] == old_ks[x]);
                    }
                }
            }
        }
        i = i + 1;
    }
    proof {
        assert forall|k: Seq<char>| #[trigger] entry_fields(c, map@, k) is Some implies ks.contains(k) by {
            let a = choose|a: int| 0 <= a < keys@.len() && (#[trigger] keys@[a]).0@ == k;
        }
        assert(records_at(c, map@, out@, ks));
    }
    out
}

/// The catalog lists what the document holds: each kind's entities read from
/// the records of its root map, in order of sequence number, and the relations
/// read from the records of `relations`, in order of creation.
pub open spec fn catalog_holds(d: Contents, c: Catalog) -> bool {
    &&& exists|recs: Seq<Record>| #[trigger] holds_records(d, "decisions"@, recs) && lists_records(recs, c.decisions@,
        |f: Seq<(String, FieldValue)>| base_readable(f), |f: Seq<(String, FieldValue)>, x: Decision| decision_read(f, x),
        |x: Decision| x.base.sequence_number as int)
    &&& exists|recs: Seq<Record>| #[trigger] holds_records(d, "tasks"@, recs) && lists_records(recs, c.tasks@,
        |f: Seq<(String, FieldValue)>| base_readable(f), |f: Seq<(String, FieldValue)>, x: Task| task_read(f, x),
        |x: Task| x.base.sequence_number as int)
    &&& exists|recs: Seq<Record>| #[trigger] holds_records(d, "notes"@, recs) && lists_records(recs, c.notes@,
        |f: Seq<(String, FieldValue)>| base_readable(f), |f: Seq<(String, FieldValue)>, x: Note| note_read(f, x),
        |x: Note| x.base.sequence_number as int)
    &&& exists|recs: Seq<Record>| #[trigger] holds_records(d, "prompts"@, recs) && lists_records(recs, c.prompts@,
        |f: Seq<(String, FieldValue)>| base_readable(f), |f: Seq<(String, FieldValue)>, x: Prompt| prompt_read(f, x),
        |x: Prompt| x.base.sequence_number as int)
    &&& exists|recs: Seq<Record>| #[trigger] holds_records(d, "components"@, recs) && lists_records(recs, c.components@,
        |f: Seq<(String, FieldValue)>| base_readable(f), |f: Seq<(String, FieldValue)>, x: Component| component_read(f, x),
        |x: Component| x.base.sequence_number as int)
    &&& exists|recs: Seq<Record>| #[trigger] holds_records(d, "links"@, recs) && lists_records(recs, c.links@,
        |f: Seq<(String, FieldValue)>| link_readable(f), |f: Seq<(String, FieldValue)>, x: Link| link_read(f, x),
        |x: Link| x.base.sequence_number as int)
    &&& exists|recs: Seq<Record>| #[trigger] holds_records(d, "relations"@, recs) && lists_records(recs, c.relations@,
        |f: Seq<(String, FieldValue)>| relation_readable(f), |f: Seq<(String, FieldValue)>, x: Relation| relation_read(f, x),
        |x: Relation| instant_key(x.created_at))
}

/// Everything the document holds, each list in listing order.
pub fn catalog_of(doc: &loro::LoroDoc) -> (c: Catalog)
    ensures
        catalog_holds(doc_entries(*doc), c),
{
    let d = map_records(doc, "decisions");
    let t = map_records(doc, "tasks");
    let n = map_records(doc, "notes");
    let p = map_records(doc, "prompts");
    let co = map_records(doc, "components");
    let l = map_records(doc, "links");
    let r = map_records(doc, "relations");
    Catalog {
        decisions: list_decisions(&d),
        tasks: list_tasks(&t),
        notes: list_notes(&n),
        prompts: list_prompts(&p),
        components: list_components(&co),
        links: list_links(&l),
        relations: list_relations(&r),
    }
}

// ---------------------------------------------------------------------------
// Writing records
// ---------------------------------------------------------------------------

/// The list a record's list is written as: its text items, in order.
pub open spec fn written_list(items: Seq<Option<String>>) -> Seq<Option<Seq<char>>> {
    texts(items).map_values(|t: Seq<char>| Some(t))
}

/// The table a record's table is written as: its entries with text values,
/// later over earlier.
pub open spec fn written_table(pairs: Seq<(String, Option<String>)>) -> Map<Seq<char>, Option<Seq<char>>>
    decreases pairs.len(),
{
    if pairs.len() == 0 {
        Map::empty()
    } else {
        let m = written_table(pairs.drop_last());
        match pairs.last().1 {
            Some(v) => m.insert(pairs.last().0@, Some(v@)),
            None => m,
        }
    }
}

/// What a record's field is written as; nothing for a value of another kind.
pub open spec fn written_value(v: FieldValue) -> Option<Stored> {
    match v {
        FieldValue::Text(s) => Some(Stored::Text(s@)),
        FieldValue::Int(n) => Some(Stored::Int(n)),
        FieldValue::List(items) => Some(Stored::List(written_list(items@))),
        FieldValue::Table(pairs) => Some(Stored::Table(written_table(pairs@))),
        FieldValue::Other => None,
    }
}

/// The fields a record is written as: for each name, its first field, where
/// that is of a kind that is written.
pub open spec fn written_fields(f: Seq<(String, FieldValue)>) -> Fields
    decreases f.len(),
{
    if f.len() == 0 {
        Map::empty()
    } else {
        let m = written_fields(f.drop_first()).remove(f[0].0@);
        match written_value(f[0].1) {
            Some(v) => m.insert(f[0].0@, v),
            None => m,
        }
    }
}

/// Some field of `f` is named `n`.
pub open spec fn has_name(f: Seq<(String, FieldValue)>, n: Seq<char>) -> bool {
    exists|k: int| 0 <= k < f.len() && (#[trigger] f[k]).0@ == n
}

proof fn lemma_written_push(s: Seq<(String, FieldValue)>, x: (String, FieldValue))
    ensures
        written_fields(s.push(x)) == (if has_name(s, x.0@) {
            written_fields(s)
        } else {
            match written_value(x.1) {
                Some(v) => written_fields(s).insert(x.0@, v),
                None => written_fields(s),
            }
        }),
    decreases s.len(),
{
    if s.len() == 0 {
        assert(s.push(x).drop_first() =~= Seq::<(String, FieldValue)>::empty());
        assert(s.push(x)[0] == x);
        assert(written_fields(s.push(x).drop_first()) =~= Map::<Seq<char>, Stored>::empty());
        assert(written_fields(s.push(x)) =~= (match written_value(x.1) {
            Some(v) => Map::<Seq<char>, Stored>::empty().insert(x.0@, v),
            None => Map::<Seq<char>, Stored>::empty(),
        }));
    } else {
        assert(s.push(x).drop_first() =~= s.drop_first().push(x));
        assert(s.push(x)[0] == s[0]);
        lemma_written_push(s.drop_first(), x);
        let t = s.drop_first();
        if has_name(t, x.0@) {
            let k = choose|k: int| 0 <= k < t.len() && (#[trigger] t[k]).0@ == x.0@;
            assert(s[k + 1] == t[k]);
        }
        if has_name(s, x.0@) && s[0].0@ != x.0@ {
            let k = choose|k: int| 0 <= k < s.len() && (#[trigger] s[k]).0@ == x.0@;
            assert(t[k - 1] == s[k]);
        }
        if !has_name(s, x.0@) {
            assert(s[0].0@ != x.0@);
            if has_name(t, x.0@) {
                let k = choose|k: int| 0 <= k < t.len() && (#[trigger] t[k]).0@ == x.0@;
                assert(s[k + 1] == t[k]);
            }
        }
        if s[0].0@ == x.0@ {
            assert(has_name(s, x.0@)) by {
                assert(s[0].0@ == x.0@);
            }
        }
        assert(written_fields(s.push(x)) =~= (if has_name(s, x.0@) {
            written_fields(s)
        } else {
            match written_value(x.1) {
                Some(v) => written_fields(s).insert(x.0@, v),
                None => written_fields(s),
            }
        }));
    }
}

proof fn lemma_written_names(f: Seq<(String, FieldValue)>, n: Seq<char>)
    requires
        written_fields(f).dom().contains(n),
    ensures
        has_name(f, n),
    decreases f.len(),
{
    if f.len() > 0 && f[0].0@ != n {
        lemma_written_names(f.drop_first(), n);
        let k = choose|k: int| 0 <= k < f.drop_first().len() && (#[trigger] f.drop_first()[k]).0@ == n;
        assert(f[k + 1] == f.drop_first()[k]);
    } else if f.len() > 0 {
        assert(f[0].0@ == n);
    }
}

proof fn lemma_entry_chain(a: Contents, b: Contents, c: Contents, map: Seq<char>, key: Seq<char>, e1: Fields, e2: Fields)
    requires
        only_entry_changed(a, b, map, key, e1),
        only_entry_changed(b, c, map, key, e2),
    ensures
        only_entry_changed(a, c, map, key, e2),
{
    assert(root(b, map).insert(key, Some(e2)) =~= root(a, map).insert(key, Some(e2)));
}

proof fn lemma_entry_now(a: Contents, b: Contents, map: Seq<char>, key: Seq<char>, e: Fields)
    requires
        only_entry_changed(a, b, map, key, e),
    ensures
        fields_or_empty(b, map, key) == e,
        entry_fields(b, map, key) == Some(e),
{
}

/// Writes a list as the field `name` of the entry `key`: its text items follow
/// those of the list the field held.
fn write_list(doc: &mut loro::LoroDoc, map: &str, key: &str, name: &str, items: &Vec<Option<String>>) -> (r: Result<(), String>)
    ensures
        r is Ok ==> only_entry_changed(doc_entries(*old(doc)), doc_entries(*final(doc)), map@, key@,
            fields_or_empty(doc_entries(*old(doc)), map@, key@).insert(name@,
                Stored::List(list_or_empty(fields_or_empty(doc_entries(*old(doc)), map@, key@), name@) + written_list(items@)))),
{
    let ghost c0 = doc_entries(*doc);
    let ghost base = fields_or_empty(c0, map@, key@);
    let ghost start = list_or_empty(base, name@);
    put_list(doc, map, key, name)?;
    let mut j: usize = 0;
    while j < items.len()
        invariant
            j <= items@.len(),
            only_entry_changed(c0, doc_entries(*doc), map@, key@,
                base.insert(name@, Stored::List(start + written_list(items@.take(j as int))))),
        decreases items.len() - j,
    {
        let ghost before = doc_entries(*doc);
        let ghost cur = start + written_list(items@.take(j as int));
        proof {
            lemma_entry_now(c0, before, map@, key@, base.insert(name@, Stored::List(cur)));
            assert(items@.take(j + 1).drop_last() =~= items@.take(j as int));
        }
        if let Some(s) = &items[j] {
            push_item(doc, map, key, name, s.as_str())?;
            proof {
                assert(list_or_empty(base.insert(name@, Stored::List(cur)), name@) == cur);
                assert(items@.take(j + 1).last() == items@[j as int]);
                assert(texts(items@.take(j + 1)) == texts(items@.take(j as int)).push(s@));
                assert(written_list(items@.take(j + 1)) =~= written_list(items@.take(j as int)).push(Some(s@)));
                assert(cur.push(Some(s@)) =~= start + written_list(items@.take(j + 1)));
                assert(base.insert(name@, Stored::List(cur)).insert(name@, Stored::List(cur.push(Some(s@))))
                    =~= base.insert(name@, Stored::List(start + written_list(items@.take(j + 1)))));
                lemma_entry_chain(c0, before, doc_entries(*doc), map@, key@, base.insert(name@, Stored::List(cur)),
                    base.insert(name@, Stored::List(start + written_list(items@.take(j + 1)))));
            }
        } else {
            proof {
                assert(items@.take(j + 1).last() == items@[j as int]);
                assert(texts(items@.take(j + 1)) == texts(items@.take(j as int)));
                assert(written_list(items@.take(j + 1)) =~= written_list(items@.take(j as int)));
            }
        }
        j = j + 1;
    }
    proof {
        assert(items@.take(items@.len() as int) =~= items@);
    }
    Ok(())
}

/// Writes a table as the field `name` of the entry `key`: its entries with
/// text values go over those of the table the field held.
fn write_table(doc: &mut loro::LoroDoc, map: &str, key: &str, name: &str, pairs: &Vec<(String, Option<String>)>) -> (r: Result<(), String>)
    ensures
        r is Ok ==> only_entry_changed(doc_entries(*old(doc)), doc_entries(*final(doc)), map@, key@,
            fields_or_empty(doc_entries(*old(doc)), map@, key@).insert(name@,
                Stored::Table(table_or_empty(fields_or_empty(doc_entries(*old(doc)), map@, key@), name@).union_prefer_right(written_table(pairs@))))),
{
    let ghost c0 = doc_entries(*doc);
    let ghost base = fields_or_empty(c0, map@, key@);
    let ghost start = table_or_empty(base, name@);
    put_table(doc, map, key, name)?;
    proof {
        assert(start.union_prefer_right(written_table(pairs@.take(0))) =~= start);
    }
    let mut j: usize = 0;
    while j < pairs.len()
        invariant
            j <= pairs@.len(),
            only_entry_changed(c0, doc_entries(*doc), map@, key@,
                base.insert(name@, Stored::Table(start.union_prefer_right(written_table(pairs@.take(j as int)))))),
        decreases pairs.len() - j,
    {
        let ghost before = doc_entries(*doc);
        let ghost cur = start.union_prefer_right(written_table(pairs@.take(j as int)));
        proof {
            lemma_entry_now(c0, before, map@, key@, base.insert(name@, Stored::Table(cur)));
            assert(pairs@.take(j + 1).drop_last() =~= pairs@.take(j as int));
            assert(pairs@.take(j + 1).last() == pairs@[j as int]);
        }
        if let Some(v) = &pairs[j].1 {
            put_table_entry(doc, map, key, name, pairs[j].0.as_str(), v.as_str())?;
            proof {
                assert(table_or_empty(base.insert(name@, Stored::Table(cur)), name@) == cur);
                assert(cur.insert(pairs@[j as int].0@, Some(v@)) =~= start.union_prefer_right(written_table(pairs@.take(j + 1))));
                assert(base.insert(name@, Stored::Table(cur)).insert(name@, Stored::Table(cur.insert(pairs@[j as int].0@, Some(v@))))
                    =~= base.insert(name@, Stored::Table(start.union_prefer_right(written_table(pairs@.take(j + 1))))));
                lemma_entry_chain(c0, before, doc_entries(*doc), map@, key@, base.insert(name@, Stored::Table(cur)),
                    base.insert(name@, Stored::Table(start.union_prefer_right(written_table(pairs@.take(j + 1))))));
            }
        } else {
            proof {
                assert(written_table(pairs@.take(j + 1)) =~= written_table(pairs@.take(j as int)));
            }
        }
        j = j + 1;
    }
    proof {
        assert(pairs@.take(pairs@.len() as int) =~= pairs@);
    }
    Ok(())
}

/// Whether a field named like the `i`-th comes before it.
fn named_before(rec: &Record, i: usize) -> (r: bool)
    requires
        i < rec.fields@.len(),
    ensures
        r == has_name(rec.fields@.take(i as int), rec.fields@[i as int].0@),
{
    let mut j: usize = 0;
    while j < i
        invariant
            j <= i < rec.fields@.len(),
            forall|k: int| 0 <= k < j ==> rec.fields@[k].0@ != rec.fields@[i as int].0@,
        decreases i - j,
    {
        if crate::text::str_eq(rec.fields[j].0.as_str(), rec.fields[i].0.as_str()) {
            proof {
                assert(rec.fields@.take(i as int)[j as int] == rec.fields@[j as int]);
            }
            return true;
        }
        j = j + 1;
    }
    proof {
        if has_name(rec.fields@.take(i as int), rec.fields@[i as int].0@) {
            let k = choose|k: int| 0 <= k < i && (#[trigger] rec.fields@.take(i as int)[k]).0@ == rec.fields@[i as int].0@;
            assert(rec.fields@.take(i as int)[k] == rec.fields@[k]);
        }
    }
    false
}

/// Writes a record as the entry `key` of `map`, in place of what the entry was:
/// the entry then holds what the record is written as (for each name its first
/// field), and nothing else in the document changes.
pub fn write_record(doc: &mut loro::LoroDoc, map: &str, key: &str, rec: &Record) -> (r: Result<(), MedullaError>)
    ensures
        r matches Err(e) ==> e is Loro,
        r is Ok ==> only_entry_changed(doc_entries(*old(doc)), doc_entries(*final(doc)), map@, key@, written_fields(rec.fields@)),
{
    let ghost c0 = doc_entries(*doc);
    if let Err(e) = delete_key(doc, map, key) {
        return Err(MedullaError::Loro(e));
    }
    let ghost c1 = doc_entries(*doc);
    if let Err(e) = create_entry(doc, map, key) {
        return Err(MedullaError::Loro(e));
    }
    proof {
        assert(!root(c1, map@).dom().contains(key@));
        assert(fields_or_empty(c1, map@, key@) == Map::<Seq<char>, Stored>::empty());
        assert(root(c0, map@).remove(key@).insert(key@, Some(Map::<Seq<char>, Stored>::empty()))
            =~= root(c0, map@).insert(key@, Some(Map::<Seq<char>, Stored>::empty())));
        assert(rec.fields@.take(0) =~= Seq::<(String, FieldValue)>::empty());
        assert(written_fields(rec.fields@.take(0)) =~= Map::<Seq<char>, Stored>::empty());
    }
    let mut i: usize = 0;
    while i < rec.fields.len()
        invariant
            i <= rec.fields@.len(),
            only_entry_changed(c0, doc_entries(*doc), map@, key@, written_fields(rec.fields@.take(i as int))),
        decreases rec.fields.len() - i,
    {
        let ghost before = doc_entries(*doc);
        let ghost f = rec.fields@;
        let ghost e = written_fields(f.take(i as int));
        proof {
            lemma_entry_now(c0, before, map@, key@, e);
            assert(f.take(i + 1) =~= f.take(i as int).push(f[i as int]));
            lemma_written_push(f.take(i as int), f[i as int]);
        }
        if !named_before(rec, i) {
            let name = rec.fields[i].0.as_str();
            proof {
                if e.dom().contains(f[i as int].0@) {
                    lemma_written_names(f.take(i as int), f[i as int].0@);
                }
                assert(list_or_empty(e, f[i as int].0@) =~= Seq::<Option<Seq<char>>>::empty());
                assert(table_or_empty(e, f[i as int].0@) =~= Map::<Seq<char>, Option<Seq<char>>>::empty());
            }
            let res = match &rec.fields[i].1 {
                FieldValue::Text(s) => put_text(doc, map, key, name, s.as_str()),
                FieldValue::Int(n) => put_int(doc, map, key, name, *n),
                FieldValue::List(items) => write_list(doc, map, key, name, items),
                FieldValue::Table(pairs) => write_table(doc, map, key, name, pairs),
                FieldValue::Other => Ok(()),
            };
            if let Err(msg) = res {
                return Err(MedullaError::Loro(msg));
            }
            proof {
                match f[i as int].1 {
                    FieldValue::List(items) => {
                        assert(Seq::<Option<Seq<char>>>::empty() + written_list(items@) =~= written_list(items@));
                    },
                    FieldValue::Table(pairs) => {
                        assert(Map::<Seq<char>, Option<Seq<char>>>::empty().union_prefer_right(written_table(pairs@))
                            =~= written_table(pairs@));
                    },
                    _ => {},
                }
                if written_value(f[i as int].1) is Some {
                    lemma_entry_chain(c0, before, doc_entries(*doc), map@, key@, e, written_fields(f.take(i + 1)));
                }
            }
        }
        i = i + 1;
    }
    commit(doc);
    proof {
        assert(rec.fields@.take(rec.fields@.len() as int) =~= rec.fields@);
    }
    Ok(())
}

// ---------------------------------------------------------------------------
// Entities, relations and sequence numbers
// ---------------------------------------------------------------------------

/// The root map a kind of entity is stored in.
pub open spec fn kind_map_name(k: EntityKind) -> Seq<char> {
    match k {
        EntityKind::Decision => "decisions"@,
        EntityKind::Task => "tasks"@,
        EntityKind::Note => "notes"@,
        EntityKind::Prompt => "prompts"@,
        EntityKind::Component => "components"@,
        EntityKind::Link => "links"@,
    }
}

/// The root map a kind of entity is stored in.
pub fn kind_map(k: EntityKind) -> (r: &'static str)
    ensures
        r@ == kind_map_name(k),
{
    match k {
        EntityKind::Decision => "decisions",
        EntityKind::Task => "tasks",
        EntityKind::Note => "notes",
        EntityKind::Prompt => "prompts",
        EntityKind::Component => "components",
        EntityKind::Link => "links",
    }
}

/// The sequence number recorded for a kind: the integer under the kind's map name
/// in the `type_sequences` entry of `_meta`; 0 where there is none.
pub open spec fn recorded_in(c: Contents, k: EntityKind) -> i64 {
    match field_at(c, "_meta"@, "type_sequences"@, kind_map_name(k)) {
        Some(Stored::Int(n)) => n,
        _ => 0,
    }
}

/// The sequence number recorded for a kind.
pub fn recorded_sequence(doc: &loro::LoroDoc, k: EntityKind) -> (r: i64)
    ensures
        r == recorded_in(doc_entries(*doc), k),
{
    match field_int(doc, "_meta", "type_sequences", kind_map(k)) {
        Some(n) => n,
        None => 0,
    }
}

/// The sequence number the next entity of a kind takes: one more than the one
/// recorded, where that fits in a `u32`.
pub fn next_sequence_number(doc: &loro::LoroDoc, k: EntityKind) -> (r: Result<u32, MedullaError>)
    ensures
        r is Ok <==> 0 <= recorded_in(doc_entries(*doc), k) + 1 <= u32::MAX,
        r matches Ok(n) ==> n == recorded_in(doc_entries(*doc), k) + 1,
        r matches Err(e) ==> e is Storage,
{
    match sequence_after(recorded_sequence(doc, k)) {
        Some(n) => Ok(n),
        None => Err(MedullaError::Storage(String::from_str("Sequence numbers exhausted"))),
    }
}

/// Records that an entity of a kind with sequence number `seq` is stored: the
/// number recorded becomes `seq` where that is larger, and nothing else changes.
pub fn note_sequence(doc: &mut loro::LoroDoc, k: EntityKind, seq: u32) -> (r: Result<(), MedullaError>)
    ensures
        r matches Err(e) ==> e is Loro,
        r is Ok && seq > recorded_in(doc_entries(*old(doc)), k) ==> only_entry_changed(doc_entries(*old(doc)), doc_entries(*final(doc)),
            "_meta"@, "type_sequences"@, fields_or_empty(doc_entries(*old(doc)), "_meta"@, "type_sequences"@).insert(kind_map_name(k), Stored::Int(seq as i64))),
        r is Ok && seq <= recorded_in(doc_entries(*old(doc)), k) ==> doc_entries(*final(doc)) == doc_entries(*old(doc)),
{
    let current = recorded_sequence(doc, k);
    let recorded = recorded_after(current, seq);
    if recorded != current {
        if let Err(e) = put_int(doc, "_meta", "type_sequences", kind_map(k), recorded) {
            return Err(MedullaError::Loro(e));
        }
    }
    commit(doc);
    Ok(())
}

/// Removes the entry `key` of `map`: `EntityNotFound` (naming the key) exactly
/// where the map holds no such key; otherwise the entry is gone and nothing else
/// changes.
pub fn delete_entry(doc: &mut loro::LoroDoc, map: &str, key: &str) -> (r: Result<(), MedullaError>)
    ensures
        !root(doc_entries(*old(doc)), map@).dom().contains(key@) <==> (r matches Err(MedullaError::EntityNotFound(k)) && k@ == key@),
        r matches Err(e) ==> (e is EntityNotFound || e is Loro),
        r is Ok ==> only_root_changed(doc_entries(*old(doc)), doc_entries(*final(doc)), map@, root(doc_entries(*old(doc)), map@).remove(key@)),
{
    if !has_key(doc, map, key) {
        return Err(MedullaError::EntityNotFound(String::from_str(key)));
    }
    if let Err(e) = delete_key(doc, map, key) {
        return Err(MedullaError::Loro(e));
    }
    commit(doc);
    Ok(())
}

/// Removes the stored entity of a kind with the given UUID.
pub fn delete_entity(doc: &mut loro::LoroDoc, k: EntityKind, id: u128) -> (r: Result<(), MedullaError>)
    ensures
        !root(doc_entries(*old(doc)), kind_map_name(k)).dom().contains(uuid_text(id))
            <==> (r matches Err(MedullaError::EntityNotFound(s)) && s@ == uuid_text(id)),
        r matches Err(e) ==> (e is EntityNotFound || e is Loro),
        r is Ok ==> only_root_changed(doc_entries(*old(doc)), doc_entries(*final(doc)), kind_map_name(k),
            root(doc_entries(*old(doc)), kind_map_name(k)).remove(uuid_text(id))),
{
    let key = uuid_string(id);
    delete_entry(doc, kind_map(k), key.as_str())
}

/// The entry `key` of `map` holds what a record `g` is written as, where `g` says
/// `says` of it.
pub open spec fn holds_written(c: Contents, map: Seq<char>, key: Seq<char>, says: spec_fn(Seq<(String, FieldValue)>) -> bool) -> bool {
    exists|g: Seq<(String, FieldValue)>| #[trigger] says(g) && entry_fields(c, map, key) == Some(written_fields(g))
}

/// Writes a record under `key` in the kind's root map, then records the
/// sequence number; on success the entry holds what the record is written as.
fn put_record(doc: &mut loro::LoroDoc, k: EntityKind, key: &str, rec: &Record, seq: u32) -> (r: Result<(), MedullaError>)
    ensures
        r matches Err(e) ==> e is Loro,
        r is Ok ==> entry_fields(doc_entries(*final(doc)), kind_map_name(k), key@) == Some(written_fields(rec.fields@)),
{
    write_record(doc, kind_map(k), key, rec)?;
    note_sequence(doc, k, seq)?;
    proof {
        reveal_strlit("decisions");
        reveal_strlit("tasks");
        reveal_strlit("notes");
        reveal_strlit("prompts");
        reveal_strlit("components");
        reveal_strlit("links");
        reveal_strlit("_meta");
        assert(kind_map_name(k)[0] != "_meta"@[0]);
    }
    Ok(())
}

/// The entry of `decisions` under the decision's UUID holds what a record
/// written for it is written as.
pub open spec fn stored_decision(c: Contents, d: Decision) -> bool {
    holds_written(c, "decisions"@, uuid_text(d.base.id), |g: Seq<(String, FieldValue)>| written_decision(g, d))
}

/// Stores a decision under its UUID in `decisions` and records its sequence
/// number. On success the entry holds what a record written for it is written as.
pub fn put_decision(doc: &mut loro::LoroDoc, d: &Decision) -> (r: Result<(), MedullaError>)
    ensures
        r matches Err(e) ==> e is Loro,
        r is Ok ==> stored_decision(doc_entries(*final(doc)), *d),
{
    let rec = decision_record(d);
    let key = uuid_string(d.base.id);
    put_record(doc, EntityKind::Decision, key.as_str(), &rec, d.base.sequence_number)?;
    proof {
        let says = |g: Seq<(String, FieldValue)>| written_decision(g, *d);
        assert(says(rec.fields@));
    }
    Ok(())
}

/// Stores a task under its UUID in `tasks` and records its sequence number.
/// On success the entry holds what a record written for it is written as.
pub fn put_task(doc: &mut loro::LoroDoc, t: &Task) -> (r: Result<(), MedullaError>)
    ensures
        r matches Err(e) ==> e is Loro,
        r is Ok ==> holds_written(doc_entries(*final(doc)), "tasks"@, uuid_text(t.base.id),
            |g: Seq<(String, FieldValue)>| written_task(g, *t)),
{
    let rec = task_record(t);
    let key = uuid_string(t.base.id);
    put_record(doc, EntityKind::Task, key.as_str(), &rec, t.base.sequence_number)?;
    proof {
        let says = |g: Seq<(String, FieldValue)>| written_task(g, *t);
        assert(says(rec.fields@));
    }
    Ok(())
}

/// Stores a note under its UUID in `notes` and records its sequence number.
/// On success the entry holds what a record written for it is written as.
pub fn put_note(doc: &mut loro::LoroDoc, n: &Note) -> (r: Result<(), MedullaError>)
    ensures
        r matches Err(e) ==> e is Loro,
        r is Ok ==> holds_written(doc_entries(*final(doc)), "notes"@, uuid_text(n.base.id),
            |g: Seq<(String, FieldValue)>| written_note(g, *n)),
{
    let rec = note_record(n);
    let key = uuid_string(n.base.id);
    put_record(doc, EntityKind::Note, key.as_str(), &rec, n.base.sequence_number)?;
    proof {
        let says = |g: Seq<(String, FieldValue)>| written_note(g, *n);
        assert(says(rec.fields@));
    }
    Ok(())
}

/// Stores a prompt under its UUID in `prompts` and records its sequence number.
/// On success the entry holds what a record written for it is written as.
pub fn put_prompt(doc: &mut loro::LoroDoc, q: &Prompt) -> (r: Result<(), MedullaError>)
    ensures
        r matches Err(e) ==> e is Loro,
        r is Ok ==> holds_written(doc_entries(*final(doc)), "prompts"@, uuid_text(q.base.id),
            |g: Seq<(String, FieldValue)>| written_prompt(g, *q)),
{
    let rec = prompt_record(q);
    let key = uuid_string(q.base.id);
    put_record(doc, EntityKind::Prompt, key.as_str(), &rec, q.base.sequence_number)?;
    proof {
        let says = |g: Seq<(String, FieldValue)>| written_prompt(g, *q);
        assert(says(rec.fields@));
    }
    Ok(())
}

/// Stores a component under its UUID in `components` and records its sequence number.
/// On success the entry holds what a record written for it is written as.
pub fn put_component(doc: &mut loro::LoroDoc, c: &Component) -> (r: Result<(), MedullaError>)
    ensures
        r matches Err(e) ==> e is Loro,
        r is Ok ==> holds_written(doc_entries(*final(doc)), "components"@, uuid_text(c.base.id),
            |g: Seq<(String, FieldValue)>| written_component(g, *c)),
{
    let rec = component_record(c);
    let key = uuid_string(c.base.id);
    put_record(doc, EntityKind::Component, key.as_str(), &rec, c.base.sequence_number)?;
    proof {
        let says = |g: Seq<(String, FieldValue)>| written_component(g, *c);
        assert(says(rec.fields@));
    }
    Ok(())
}

/// Stores a link under its UUID in `links` and records its sequence number.
/// On success the entry holds what a record written for it is written as.
pub fn put_link(doc: &mut loro::LoroDoc, l: &Link) -> (r: Result<(), MedullaError>)
    ensures
        r matches Err(e) ==> e is Loro,
        r is Ok ==> holds_written(doc_entries(*final(doc)), "links"@, uuid_text(l.base.id),
            |g: Seq<(String, FieldValue)>| written_link(g, *l)),
{
    let rec = link_record(l);
    let key = uuid_string(l.base.id);
    put_record(doc, EntityKind::Link, key.as_str(), &rec, l.base.sequence_number)?;
    proof {
        let says = |g: Seq<(String, FieldValue)>| written_link(g, *l);
        assert(says(rec.fields@));
    }
    Ok(())
}

/// Stores the entity at a position of a catalog under its UUID in its kind's
/// root map and records its sequence number. On success the entry holds what a
/// record written for it is written as.
pub fn put_entity(doc: &mut loro::LoroDoc, cat: &Catalog, k: EntityKind, i: usize) -> (r: Result<(), MedullaError>)
    requires
        i < cat.bases(k).len(),
    ensures
        r matches Err(e) ==> e is Loro,
        r is Ok ==> match k {
            EntityKind::Decision => holds_written(doc_entries(*final(doc)), "decisions"@, uuid_text(cat.decisions@[i as int].base.id),
                |g: Seq<(String, FieldValue)>| written_decision(g, cat.decisions@[i as int])),
            EntityKind::Task => holds_written(doc_entries(*final(doc)), "tasks"@, uuid_text(cat.tasks@[i as int].base.id),
                |g: Seq<(String, FieldValue)>| written_task(g, cat.tasks@[i as int])),
            EntityKind::Note => holds_written(doc_entries(*final(doc)), "notes"@, uuid_text(cat.notes@[i as int].base.id),
                |g: Seq<(String, FieldValue)>| written_note(g, cat.notes@[i as int])),
            EntityKind::Prompt => holds_written(doc_entries(*final(doc)), "prompts"@, uuid_text(cat.prompts@[i as int].base.id),
                |g: Seq<(String, FieldValue)>| written_prompt(g, cat.prompts@[i as int])),
            EntityKind::Component => holds_written(doc_entries(*final(doc)), "components"@, uuid_text(cat.components@[i as int].base.id),
                |g: Seq<(String, FieldValue)>| written_component(g, cat.components@[i as int])),
            EntityKind::Link => holds_written(doc_entries(*final(doc)), "links"@, uuid_text(cat.links@[i as int].base.id),
                |g: Seq<(String, FieldValue)>| written_link(g, cat.links@[i as int])),
        },
{
    match k {
        EntityKind::Decision => put_decision(doc, &cat.decisions[i]),
        EntityKind::Task => put_task(doc, &cat.tasks[i]),
        EntityKind::Note => put_note(doc, &cat.notes[i]),
        EntityKind::Prompt => put_prompt(doc, &cat.prompts[i]),
        EntityKind::Component => put_component(doc, &cat.components[i]),
        EntityKind::Link => put_link(doc, &cat.links[i]),
    }
}

/// Stores a relation under its key in `relations`. On success the entry holds
/// what a record written for it is written as, and nothing else changes.
pub fn put_relation(doc: &mut loro::LoroDoc, rel: &Relation) -> (r: Result<(), MedullaError>)
    ensures
        r matches Err(e) ==> e is Loro,
        r is Ok ==> exists|g: Seq<(String, FieldValue)>| #[trigger] written_relation(g, *rel)
            && only_entry_changed(doc_entries(*old(doc)), doc_entries(*final(doc)), "relations"@, rel_key(*rel), written_fields(g)),
{
    let rec = relation_record(rel);
    let key = rel.composite_key();
    write_record(doc, "relations", key.as_str(), &rec)?;
    proof {
        assert(written_relation(rec.fields@, *rel));
    }
    Ok(())
}

/// The key a relation is stored under.
pub open spec fn rel_key(r: Relation) -> Seq<char> {
    composite_key_text(r.source_id, r.relation_type, r.target_id)
}

/// No relation after the `x`-th among the first `n` has its key.
pub open spec fn last_with_key(rels: Seq<Relation>, x: int, n: int) -> bool {
    forall|y: int| x < y < n ==> rel_key(#[trigger] rels[y]) != rel_key(rels[x])
}

/// The relations root map holds, under the key of each of the first `n`
/// relations, what a record written for the last of them with that key is
/// written as, and nothing else.
pub open spec fn relations_written(c: Contents, rels: Seq<Relation>, n: int) -> bool {
    &&& forall|k: Seq<char>| #[trigger] root(c, "relations"@).dom().contains(k)
        <==> exists|x: int| 0 <= x < n && k == rel_key(#[trigger] rels[x])
    &&& forall|x: int| 0 <= x < n && last_with_key(rels, x, n) ==> holds_written(c, "relations"@, rel_key(#[trigger] rels[x]),
        |g: Seq<(String, FieldValue)>| written_relation(g, rels[x]))
}

proof fn lemma_relations_step(before: Contents, after: Contents, rels: Seq<Relation>, j: int, g: Seq<(String, FieldValue)>)
    requires
        0 <= j < rels.len(),
        relations_written(before, rels, j),
        written_relation(g, rels[j]),
        root(after, "relations"@) == root(before, "relations"@).insert(rel_key(rels[j]), Some(written_fields(g))),
    ensures
        relations_written(after, rels, j + 1),
{
    let kj = rel_key(rels[j]);
    assert forall|k: Seq<char>| #[trigger] root(after, "relations"@).dom().contains(k)
        <==> exists|x: int| 0 <= x < j + 1 && k == rel_key(#[trigger] rels[x]) by {
        if root(after, "relations"@).dom().contains(k) {
            if k == kj {
                assert(k == rel_key(rels[j]));
            } else {
                assert(root(before, "relations"@).dom().contains(k));
                let x = choose|x: int| 0 <= x < j && k == rel_key(#[trigger] rels[x]);
                assert(k == rel_key(rels[x]));
            }
        }
        if exists|x: int| 0 <= x < j + 1 && k == rel_key(#[trigger] rels[x]) {
            let x = choose|x: int| 0 <= x < j + 1 && k == rel_key(#[trigger] rels[x]);
            if x < j {
                assert(root(before, "relations"@).dom().contains(k));
            }
        }
    }
    assert forall|x: int| 0 <= x < j + 1 && last_with_key(rels, x, j + 1) implies holds_written(after, "relations"@, rel_key(#[trigger] rels[x]),
        |g: Seq<(String, FieldValue)>| written_relation(g, rels[x])) by {
        let kx = rel_key(rels[x]);
        let says = |h: Seq<(String, FieldValue)>| written_relation(h, rels[x]);
        if x < j {
            assert(rel_key(rels[j]) != kx);
            assert(last_with_key(rels, x, j));
            let h = choose|h: Seq<(String, FieldValue)>| #[trigger] says(h) && entry_fields(before, "relations"@, kx) == Some(written_fields(h));
            assert(entry_fields(after, "relations"@, kx) == entry_fields(before, "relations"@, kx));
            assert(says(h));
        } else {
            assert(says(g));
            assert(entry_fields(after, "relations"@, kj) == Some(written_fields(g)));
        }
    }
}

/// Makes the stored relations those given: every key of `relations` is removed,
/// then each relation is written under its key. On success the root map holds,
/// under the key of each relation, what a record written for the last relation
/// with that key is written as, and no other key; nothing else changes.
pub fn put_relations(doc: &mut loro::LoroDoc, rels: &Vec<Relation>) -> (r: Result<(), MedullaError>)
    ensures
        r matches Err(e) ==> e is Loro,
        r is Ok ==> forall|m: Seq<char>| m != "relations"@ ==> #[trigger] root(doc_entries(*final(doc)), m) == root(doc_entries(*old(doc)), m),
        r is Ok ==> relations_written(doc_entries(*final(doc)), rels@, rels@.len() as int),
{
    let ghost c0 = doc_entries(*doc);
    let keys = entry_keys(doc, "relations");
    let mut i: usize = 0;
    while i < keys.len()
        invariant
            i <= keys@.len(),
            forall|a: int| 0 <= a < keys@.len() ==> root(c0, "relations"@).dom().contains((#[trigger] keys@[a]).0@),
            forall|k: Seq<char>| #[trigger] root(c0, "relations"@).dom().contains(k) ==> exists|a: int| 0 <= a < keys@.len() && (#[trigger] keys@[a]).0@ == k,
            forall|m: Seq<char>| m != "relations"@ ==> #[trigger] root(doc_entries(*doc), m) == root(c0, m),
            forall|k: Seq<char>| #[trigger] root(doc_entries(*doc), "relations"@).dom().contains(k)
                ==> (root(c0, "relations"@).dom().contains(k) && forall|a: int| 0 <= a < i ==> (#[trigger] keys@[a]).0@ != k),
        decreases keys.len() - i,
    {
        if let Err(e) = delete_key(doc, "relations", keys[i].0.as_str()) {
            return Err(MedullaError::Loro(e));
        }
        i = i + 1;
    }
    commit(doc);
    proof {
        assert forall|k: Seq<char>| !#[trigger] root(doc_entries(*doc), "relations"@).dom().contains(k) by {
            if root(doc_entries(*doc), "relations"@).dom().contains(k) {
                let a = choose|a: int| 0 <= a < keys@.len() && (#[trigger] keys@[a]).0@ == k;
            }
        }
    }
    let mut j: usize = 0;
    while j < rels.len()
        invariant
            j <= rels@.len(),
            forall|m: Seq<char>| m != "relations"@ ==> #[trigger] root(doc_entries(*doc), m) == root(c0, m),
            relations_written(doc_entries(*doc), rels@, j as int),
        decreases rels.len() - j,
    {
        let rel = &rels[j];
        let rec = relation_record(rel);
        let key = rel.composite_key();
        let ghost before = doc_entries(*doc);
        write_record(doc, "relations", key.as_str(), &rec)?;
        proof {
            lemma_relations_step(before, doc_entries(*doc), rels@, j as int, rec.fields@);
        }
        j = j + 1;
    }
    Ok(())
}

// ---------------------------------------------------------------------------
// Documents and snapshots
// ---------------------------------------------------------------------------

/// A document that holds nothing.
pub fn empty_document() -> (r: loro::LoroDoc)
    ensures
        doc_entries(r).dom().is_empty(),
{
    new_doc()
}

/// The document a stored snapshot restores; a `Loro` error where the bytes do
/// not decode.
pub fn open_document(bytes: &[u8]) -> (r: Result<loro::LoroDoc, MedullaError>)
    ensures
        r matches Ok(d) ==> (snapshot_entries(bytes@) matches Some(c) && same_roots(c, doc_entries(d))),
        r is Err <==> snapshot_entries(bytes@) is None,
        r matches Err(e) ==> e is Loro,
{
    match load_snapshot(bytes) {
        Ok(d) => Ok(d),
        Err(e) => Err(MedullaError::Loro(e)),
    }
}

/// The snapshot of a document, which restores what it holds; a `LoroEncode`
/// error where it cannot be made.
pub fn snapshot(doc: &loro::LoroDoc) -> (r: Result<Vec<u8>, MedullaError>)
    ensures
        r matches Ok(b) ==> (snapshot_entries(b@) matches Some(c) && same_roots(c, doc_entries(*doc))),
        r matches Err(e) ==> e is LoroEncode,
{
    match export_snapshot(doc) {
        Ok(b) => Ok(b),
        Err(e) => Err(MedullaError::LoroEncode(e)),
    }
}

// ---------------------------------------------------------------------------
// Reading back what was stored
// ---------------------------------------------------------------------------

proof fn lemma_field_of_written(g: Seq<(String, FieldValue)>, n: Seq<char>)
    ensures
        field_of(g, n) is None ==> !written_fields(g).dom().contains(n),
        field_of(g, n) matches Some(v) ==> match written_value(v) {
            Some(s) => written_fields(g).dom().contains(n) && written_fields(g)[n] == s,
            None => !written_fields(g).dom().contains(n),
        },
    decreases g.len(),
{
    if g.len() > 0 {
        lemma_field_of_written(g.drop_first(), n);
    }
}

proof fn lemma_field_of_at(f: Seq<(String, FieldValue)>, i: int)
    requires
        distinct_names(f),
        0 <= i < f.len(),
    ensures
        field_of(f, f[i].0@) == Some(f[i].1),
    decreases f.len(),
{
    if i > 0 {
        assert(f[0].0@ != f[i].0@);
        assert(distinct_names(f.drop_first())) by {
            assert forall|a: int, b: int| 0 <= a < b < f.drop_first().len() implies
                (#[trigger] f.drop_first()[a]).0@ != (#[trigger] f.drop_first()[b]).0@ by {
                assert(f.drop_first()[a] == f[a + 1] && f.drop_first()[b] == f[b + 1]);
            }
        }
        lemma_field_of_at(f.drop_first(), i - 1);
        assert(f.drop_first()[i - 1] == f[i]);
    }
}

proof fn lemma_field_of_absent(f: Seq<(String, FieldValue)>, n: Seq<char>)
    requires
        forall|i: int| 0 <= i < f.len() ==> (#[trigger] f[i]).0@ != n,
    ensures
        field_of(f, n) is None,
    decreases f.len(),
{
    if f.len() > 0 {
        assert(f[0].0@ != n);
        assert forall|i: int| 0 <= i < f.drop_first().len() implies (#[trigger] f.drop_first()[i]).0@ != n by {
            assert(f.drop_first()[i] == f[i + 1]);
        }
        lemma_field_of_absent(f.drop_first(), n);
    }
}

proof fn lemma_texts_all_some(a: Seq<Option<String>>)
    requires
        forall|k: int| 0 <= k < a.len() ==> (#[trigger] a[k]) is Some,
    ensures
        texts(a).len() == a.len(),
        forall|k: int| 0 <= k < a.len() ==> #[trigger] texts(a)[k] == a[k]->0@,
    decreases a.len(),
{
    if a.len() > 0 {
        assert forall|k: int| 0 <= k < a.drop_last().len() implies (#[trigger] a.drop_last()[k]) is Some by {
            assert(a.drop_last()[k] == a[k]);
        }
        lemma_texts_all_some(a.drop_last());
        assert(a.last() is Some);
        assert forall|k: int| 0 <= k < a.len() implies #[trigger] texts(a)[k] == a[k]->0@ by {
            if k < a.len() - 1 {
                assert(a.drop_last()[k] == a[k]);
            }
        }
    }
}

proof fn lemma_texts_read_back(a: Seq<Option<String>>, b: Seq<Option<String>>)
    requires
        opt_texts(a) == written_list(b),
    ensures
        texts(a) == texts(b),
{
    let t = texts(b);
    assert(opt_texts(a).len() == a.len());
    assert forall|k: int| 0 <= k < a.len() implies (#[trigger] a[k]) is Some by {
        assert(opt_texts(a)[k] == written_list(b)[k]);
    }
    lemma_texts_all_some(a);
    assert forall|k: int| 0 <= k < a.len() implies #[trigger] texts(a)[k] == t[k] by {
        assert(opt_texts(a)[k] == written_list(b)[k]);
    }
    assert(texts(a) =~= t);
}

/// A record read from an entry that holds what a record `g` is written as says,
/// of every field name, what `g` says of it as a text, an integer or a list of
/// texts.
pub proof fn lemma_stored_fields_read_back(g: Seq<(String, FieldValue)>, rec: Record, n: Seq<char>)
    requires
        record_of_fields(rec, written_fields(g)),
    ensures
        text_of(rec.fields@, n) == text_of(g, n),
        int_of(rec.fields@, n) == int_of(g, n),
        items_of(rec.fields@, n) == items_of(g, n),
{
    let w = written_fields(g);
    let f = rec.fields@;
    lemma_field_of_written(g, n);
    if w.dom().contains(n) {
        let i = choose|i: int| 0 <= i < f.len() && (#[trigger] f[i]).0@ == n;
        lemma_field_of_at(f, i);
        assert(reads_as(f[i].1, w[n]));
        match field_of(g, n) {
            Some(FieldValue::List(items)) => {
                match f[i].1 {
                    FieldValue::List(items2) => {
                        lemma_texts_read_back(items2@, items@);
                    },
                    _ => {},
                }
            },
            _ => {},
        }
    } else {
        assert forall|i: int| 0 <= i < f.len() implies (#[trigger] f[i]).0@ != n by {
            assert(w.dom().contains(f[i].0@));
        }
        lemma_field_of_absent(f, n);
    }
}

/// A decision stored in a document reads back from it: a record read from the
/// entry its write left gives back the same UUID, title, sequence number,
/// content, creator, tags, status, context, successor and consequences, and the
/// instants chrono reads from the texts it printed.
pub proof fn lemma_decision_stored_reads_back(c: Contents, d: Decision, rec: Record, e: Decision)
    requires
        stored_decision(c, d),
        entry_fields(c, "decisions"@, uuid_text(d.base.id)) matches Some(f) && record_of_fields(rec, f),
        decision_read(rec.fields@, e),
    ensures
        read_back_base(e.base, d.base),
        e.status == decision_status_read(Some(d.status.name())),
        opt_view(e.context) == opt_view(d.context),
        opt_view(e.superseded_by) == opt_view(d.superseded_by),
        views(e.consequences@) == views(d.consequences@),
{
    lemma_decision_stored_written(c, d, rec);
    lemma_decision_read_back(rec.fields@, d, e);
}

proof fn lemma_decision_stored_written(c: Contents, d: Decision, rec: Record)
    requires
        stored_decision(c, d),
        entry_fields(c, "decisions"@, uuid_text(d.base.id)) matches Some(f) && record_of_fields(rec, f),
    ensures
        written_decision(rec.fields@, d),
{
    let says = |g: Seq<(String, FieldValue)>| written_decision(g, d);
    let g = choose|g: Seq<(String, FieldValue)>| #[trigger] says(g) && entry_fields(c, "decisions"@, uuid_text(d.base.id)) == Some(written_fields(g));
    assert(written_decision(g, d));
    assert forall|n: Seq<char>|
        #![trigger text_of(rec.fields@, n)]
        #![trigger int_of(rec.fields@, n)]
        #![trigger items_of(rec.fields@, n)]
        text_of(rec.fields@, n) == text_of(g, n) && int_of(rec.fields@, n) == int_of(g, n)
        && items_of(rec.fields@, n) == items_of(g, n) by {
        lemma_stored_fields_read_back(g, rec, n);
    }
}

/// A snapshot restores every entry as it was.
pub proof fn lemma_snapshot_keeps_entries(a: Contents, b: Contents, map: Seq<char>, key: Seq<char>)
    requires
        same_roots(a, b),
    ensures
        entry_fields(a, map, key) == entry_fields(b, map, key),
{
    assert(root(a, map) == root(b, map));
}

/// The stored decision with the given UUID: none where `decisions` holds no map
/// under its UUID text; otherwise the decision its record reads as, where it
/// reads. A decision stored there whose instants chrono prints reads back.
pub fn get_decision(doc: &loro::LoroDoc, id: u128) -> (r: Option<Decision>)
    ensures
        entry_fields(doc_entries(*doc), "decisions"@, uuid_text(id)) is None ==> r is None,
        r matches Some(e) ==> exists|rec: Record| #[trigger] record_of_fields(rec, entry_fields(doc_entries(*doc), "decisions"@, uuid_text(id))->0)
            && decision_read(rec.fields@, e),
        forall|x: Decision| x.base.id == id && #[trigger] stored_decision(doc_entries(*doc), x) && printable(x.base.created_at)
            && printable(x.base.updated_at) ==> (r matches Some(e) && kept_instants(e.base, x.base)),
{
    let key = uuid_string(id);
    match read_entry(doc, "decisions", key.as_str()) {
        None => {
            proof {
                assert forall|x: Decision| x.base.id == id && #[trigger] stored_decision(doc_entries(*doc), x) implies false by {
                    let says = |g: Seq<(String, FieldValue)>| written_decision(g, x);
                    let g = choose|g: Seq<(String, FieldValue)>| #[trigger] says(g) && entry_fields(doc_entries(*doc), "decisions"@, uuid_text(id)) == Some(written_fields(g));
                }
            }
            None
        },
        Some(rec) => {
            let r = read_decision(&rec);
            proof {
                assert forall|x: Decision| x.base.id == id && #[trigger] stored_decision(doc_entries(*doc), x)
                    && printable(x.base.created_at) && printable(x.base.updated_at) implies (r matches Some(e) && kept_instants(e.base, x.base)) by {
                    lemma_decision_stored_written(doc_entries(*doc), x, rec);
                }
            }
            r
        },
    }
}

} // verus!
