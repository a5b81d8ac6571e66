use vstd::prelude::*;
use crate::entry::{
    build_manifest, manifest_outcome, raw_model, resolve_section, section_model, EntryModel,
    ErrorModel, FieldModel, FieldValue, ParseError, RawEntry,
};
use crate::manifest::{names_distinct, CargoToml};

verus! {

#[verifier::external_type_specification]
#[verifier::external_body]
pub struct ExValue(toml::Value);

#[verifier::external_type_specification]
#[verifier::external_body]
#[verifier::reject_recursive_types(K)]
#[verifier::reject_recursive_types(V)]
pub struct ExMap<K, V>(toml::map::Map<K, V>);

#[verifier::external_type_specification]
#[verifier::external_body]
pub struct ExDecodeError(toml::de::Error);

/// A decoded TOML value, as far as dependency resolution reads it: a string,
/// a table, or anything else (number, boolean, date, array).
pub enum TomlModel {
    Text(Seq<char>),
    Table(Map<Seq<char>, TomlModel>),
    Other,
}

/// The document that `toml::from_str` decodes from a text: its top-level
/// table, or `None` when the text does not decode.
pub uninterp spec fn toml_of(text: Seq<char>) -> Option<Map<Seq<char>, TomlModel>>;

/// The message of the error that `toml::from_str` gives on a text that does
/// not decode.
pub uninterp spec fn toml_message_of(text: Seq<char>) -> Seq<char>;

/// The message that a decoding error displays.
pub uninterp spec fn error_message(e: toml::de::Error) -> Seq<char>;

/// What a decoded TOML table holds.
pub uninterp spec fn table_model(t: toml::Table) -> Map<Seq<char>, TomlModel>;

/// What a decoded TOML value is.
pub uninterp spec fn value_model(v: toml::Value) -> TomlModel;

/// Relies on toml::from_str: decodes the text as a TOML document (a table);
/// it fails exactly when the text is no such document.
#[verifier::external_body]
fn decode_document(text: &str) -> (r: Result<toml::Table, toml::de::Error>)
    ensures
        r is Ok <==> toml_of(text@) is Some,
        r matches Ok(t) ==> table_model(t) == toml_of(text@)->Some_0,
        r matches Err(e) ==> error_message(e) == toml_message_of(text@),
{
    toml::from_str(text)
}

/// Relies on the `Display` impl of toml::de::Error: the decoder's message.
#[verifier::external_body]
fn decode_message(e: &toml::de::Error) -> (r: String)
    ensures
        r@ == error_message(*e),
{
    e.to_string()
}

/// Relies on toml::map::Map::get: the value stored under `key`, if any.
#[verifier::external_body]
fn table_get<'a>(t: &'a toml::Table, key: &str) -> (r: Option<&'a toml::Value>)
    ensures
        r is Some <==> table_model(*t).contains_key(key@),
        r matches Some(v) ==> value_model(*v) == table_model(*t)[key@],
{
    t.get(key)
}

/// Relies on toml::Value::as_str: the string, if the value is a string.
#[verifier::external_body]
fn value_str(v: &toml::Value) -> (r: Option<String>)
    ensures
        r is Some <==> value_model(*v) is Text,
        r matches Some(s) ==> s@ == value_model(*v)->Text_0,
{
    v.as_str().map(str::to_owned)
}

/// Relies on toml::Value::as_table: the table, if the value is a table.
#[verifier::external_body]
fn value_table(v: &toml::Value) -> (r: Option<&toml::Table>)
    ensures
        r is Some <==> value_model(*v) is Table,
        r matches Some(t) ==> table_model(*t) == value_model(*v)->Table_0,
{
    v.as_table()
}

/// Relies on the `IntoIterator` impl of toml::map::Map: its entries, one per
/// key. The map is a `BTreeMap` (an `IndexMap` with `preserve_order`), so no
/// key comes twice.
#[verifier::external_body]
fn table_entries(t: &toml::Table) -> (r: Vec<(String, toml::Value)>)
    ensures
        forall|i: int, j: int|
            0 <= i < j < r@.len() ==> (#[trigger] r@[i]).0@ != (#[trigger] r@[j]).0@,
        forall|i: int|
            0 <= i < r@.len() ==> table_model(*t).contains_key((#[trigger] r@[i]).0@)
                && value_model(r@[i].1) == table_model(*t)[r@[i].0@],
        forall|k: Seq<char>|
            #[trigger] table_model(*t).contains_key(k) ==> exists|i: int|
                0 <= i < r@.len() && (#[trigger] r@[i]).0@ == k,
{
    t.clone().into_iter().collect()
}

/// What a dependency table holds under `key`.
pub open spec fn field_of(t: Map<Seq<char>, TomlModel>, key: Seq<char>) -> FieldModel {
    if t.contains_key(key) {
        match t[key] {
            TomlModel::Text(s) => FieldModel::Text(s),
            _ => FieldModel::NotText,
        }
    } else {
        FieldModel::Absent
    }
}

/// The shape of a dependency value: a string, a table with what it holds
/// under `version` and `tag`, or anything else.
pub open spec fn entry_of(v: TomlModel) -> EntryModel {
    match v {
        TomlModel::Text(s) => EntryModel::Text(s),
        TomlModel::Table(t) => EntryModel::Table {
            version: field_of(t, "version"@),
            tag: field_of(t, "tag"@),
        },
        TomlModel::Other => EntryModel::Other,
    }
}

/// `raw` lists each entry of the decoded section `deps` once, in some order.
pub open spec fn lists_section(raw: Seq<(Seq<char>, EntryModel)>, deps: Map<Seq<char>, TomlModel>) -> bool {
    &&& names_distinct(raw)
    &&& forall|i: int|
        0 <= i < raw.len() ==> deps.contains_key((#[trigger] raw[i]).0) && raw[i].1 == entry_of(
            deps[raw[i].0],
        )
    &&& forall|k: Seq<char>|
        #[trigger] deps.contains_key(k) ==> exists|i: int| 0 <= i < raw.len() && (#[trigger] raw[i]).0 == k
}

/// What parsing a decoded document gives: no `dependencies` key gives no
/// dependencies; a `dependencies` table gives the resolution of its entries
/// (in an order that the decoder picks); any other `dependencies` value is
/// malformed.
pub open spec fn document_outcome(
    doc: Map<Seq<char>, TomlModel>,
    outcome: Result<Option<Seq<(Seq<char>, Seq<char>)>>, ErrorModel>,
) -> bool {
    if !doc.contains_key("dependencies"@) {
        outcome == Ok::<Option<Seq<(Seq<char>, Seq<char>)>>, ErrorModel>(None)
    } else {
        match doc["dependencies"@] {
            TomlModel::Table(deps) => exists|raw: Seq<(Seq<char>, EntryModel)>|
                lists_section(raw, deps) && #[trigger] resolve_section(Some(raw)) == outcome,
            _ => outcome matches Err(ErrorModel::Malformed(_)),
        }
    }
}

/// What a dependency table holds under `key`.
fn read_field(t: &toml::Table, key: &str) -> (r: FieldValue)
    ensures
        r@ == field_of(table_model(*t), key@),
{
    match table_get(t, key) {
        None => FieldValue::Absent,
        Some(v) => match value_str(v) {
            Some(s) => FieldValue::Text(s),
            None => FieldValue::NotText,
        },
    }
}

/// Sorts a decoded dependency value into the shapes that resolution knows.
fn read_entry(v: &toml::Value) -> (r: RawEntry)
    ensures
        r@ == entry_of(value_model(*v)),
{
    match value_str(v) {
        Some(s) => RawEntry::Text(s),
        None => match value_table(v) {
            Some(t) => RawEntry::Table {
                version: read_field(t, "version"),
                tag: read_field(t, "tag"),
            },
            None => RawEntry::Other,
        },
    }
}

/// The entries of a decoded dependency section, each once.
fn read_section(t: &toml::Table) -> (r: Vec<(String, RawEntry)>)
    ensures
        lists_section(raw_model(r@), table_model(*t)),
{
    let entries = table_entries(t);
    let mut out: Vec<(String, RawEntry)> = Vec::new();
    let mut i: usize = 0;
    while i < entries.len()
        invariant
            i <= entries@.len(),
            out@.len() == i,
            forall|k: int|
                0 <= k < i ==> (#[trigger] out@[k]).0@ == entries@[k].0@ && out@[k].1@ == entry_of(
                    value_model(entries@[k].1),
                ),
        decreases entries.len() - i,
    {
        let entry = read_entry(&entries[i].1);
        out.push((entries[i].0.clone(), entry));
        i = i + 1;
    }
    proof {
        let m = raw_model(out@);
        let deps = table_model(*t);
        assert forall|a: int, b: int| 0 <= a < b < m.len() implies #[trigger] m[a].0
            != #[trigger] m[b].0 by {
            assert(out@[a].0@ == entries@[a].0@);
            assert(out@[b].0@ == entries@[b].0@);
        }
        assert forall|k: int| 0 <= k < m.len() implies deps.contains_key((#[trigger] m[k]).0)
            && m[k].1 == entry_of(deps[m[k].0]) by {
            assert(out@[k].0@ == entries@[k].0@);
        }
        assert forall|key: Seq<char>| #[trigger] deps.contains_key(key) implies exists|k: int|
            0 <= k < m.len() && (#[trigger] m[k]).0 == key by {
            let k = choose|k: int| 0 <= k < entries@.len() && (#[trigger] entries@[k]).0@ == key;
            assert(m[k].0 == key);
        }
    }
    out
}

/// Parses manifest text. Text that does not decode is malformed, with the
/// decoder's message; otherwise
/// the outcome is what the decoded document gives (see `document_outcome`),
/// and the names of a successful result are pairwise distinct.
pub fn parse_cargo_toml(text: &str) -> (r: Result<CargoToml, ParseError>)
    ensures
        toml_of(text@) is None ==> (r matches Err(ParseError::Malformed(m)) && m@ == toml_message_of(
            text@,
        )),
        toml_of(text@) matches Some(doc) ==> document_outcome(doc, manifest_outcome(r)),
        r is Ok ==> r->Ok_0.well_formed(),
{
    let doc = match decode_document(text) {
        Ok(doc) => doc,
        Err(e) => return Err(ParseError::Malformed(decode_message(&e))),
    };
    let section = match table_get(&doc, "dependencies") {
        None => None,
        Some(v) => match value_table(v) {
            Some(t) => Some(read_section(t)),
            None => return Err(ParseError::Malformed("dependencies must be a table".to_owned())),
        },
    };
    let ghost model = section_model(section);
    let r = build_manifest(section);
    assert(resolve_section(model) == manifest_outcome(r));
    r
}

} // verus!
