use vstd::prelude::*;
use crate::entry::{resolve_all, resolve_entry, EntryModel, ErrorModel, FieldModel, VersionField};
use crate::manifest::{lookup, names_distinct};

verus! {

/// A section whose entries each resolve resolves as a whole.
proof fn lemma_all_resolve(raw: Seq<(Seq<char>, EntryModel)>)
    requires
        forall|j: int| 0 <= j < raw.len() ==> (#[trigger] resolve_entry(raw[j].0, raw[j].1)) is Ok,
    ensures
        resolve_all(raw) is Ok,
    decreases raw.len(),
{
    if raw.len() > 0 {
        let prev = raw.drop_last();
        assert forall|j: int| 0 <= j < prev.len() implies (#[trigger] resolve_entry(prev[j].0, prev[j].1)) is Ok by {
            assert(prev[j] == raw[j]);
        }
        lemma_all_resolve(prev);
        assert(resolve_entry(raw[raw.len() - 1].0, raw[raw.len() - 1].1) is Ok);
    }
}

/// An entry that fails makes the whole section fail.
pub proof fn lemma_failing_entry_fails_section(raw: Seq<(Seq<char>, EntryModel)>, i: int)
    requires
        0 <= i < raw.len(),
        resolve_entry(raw[i].0, raw[i].1) is Err,
    ensures
        resolve_all(raw) is Err,
    decreases raw.len(),
{
    if i < raw.len() - 1 {
        let prev = raw.drop_last();
        assert(prev[i] == raw[i]);
        lemma_failing_entry_fails_section(prev, i);
    }
}

/// The section fails with the error of its first failing entry.
pub proof fn lemma_first_failure_reported(raw: Seq<(Seq<char>, EntryModel)>, i: int)
    requires
        0 <= i < raw.len(),
        resolve_entry(raw[i].0, raw[i].1) is Err,
        forall|j: int| 0 <= j < i ==> (#[trigger] resolve_entry(raw[j].0, raw[j].1)) is Ok,
    ensures
        resolve_all(raw) == Err::<Seq<(Seq<char>, Seq<char>)>, ErrorModel>(
            resolve_entry(raw[i].0, raw[i].1)->Err_0,
        ),
    decreases raw.len(),
{
    let prev = raw.drop_last();
    if i == raw.len() - 1 {
        assert forall|j: int| 0 <= j < prev.len() implies (#[trigger] resolve_entry(prev[j].0, prev[j].1)) is Ok by {
            assert(prev[j] == raw[j]);
        }
        lemma_all_resolve(prev);
    } else {
        assert(prev[i] == raw[i]);
        assert forall|j: int| 0 <= j < i implies (#[trigger] resolve_entry(prev[j].0, prev[j].1)) is Ok by {
            assert(prev[j] == raw[j]);
        }
        lemma_first_failure_reported(prev, i);
    }
}

/// Resolving one more entry of another name leaves a lookup unchanged.
proof fn lemma_lookup_past_other(prev: Seq<(Seq<char>, EntryModel)>, last: (Seq<char>, EntryModel), name: Seq<char>)
    requires
        resolve_all(prev.push(last)) is Ok,
        last.0 != name,
    ensures
        resolve_all(prev) is Ok,
        lookup(resolve_all(prev.push(last))->Ok_0, name) == lookup(resolve_all(prev)->Ok_0, name),
{
    let raw = prev.push(last);
    assert(raw.drop_last() =~= prev);
    let done = resolve_all(prev)->Ok_0;
    if let Ok(Some(v)) = resolve_entry(last.0, last.1) {
        assert(done.push((last.0, v)).drop_last() =~= done);
    }
}

/// In a section that resolves, with distinct names, looking up the name of an
/// entry that resolves to a version gives that version.
pub proof fn lemma_resolved_entry_found(raw: Seq<(Seq<char>, EntryModel)>, i: int, v: Seq<char>)
    requires
        names_distinct(raw),
        0 <= i < raw.len(),
        resolve_all(raw) is Ok,
        resolve_entry(raw[i].0, raw[i].1) == Ok::<Option<Seq<char>>, ErrorModel>(Some(v)),
    ensures
        lookup(resolve_all(raw)->Ok_0, raw[i].0) == Some(v),
    decreases raw.len(),
{
    let prev = raw.drop_last();
    if i < raw.len() - 1 {
        assert(prev[i] == raw[i]);
        assert(raw[i].0 != raw[raw.len() - 1].0);
        assert(prev.push(raw.last()) =~= raw);
        lemma_lookup_past_other(prev, raw.last(), raw[i].0);
        lemma_resolved_entry_found(prev, i, v);
    }
}

/// In a section that resolves, a name that no entry has is not found.
pub proof fn lemma_absent_name_not_found(raw: Seq<(Seq<char>, EntryModel)>, name: Seq<char>)
    requires
        resolve_all(raw) is Ok,
        forall|j: int| 0 <= j < raw.len() ==> (#[trigger] raw[j]).0 != name,
    ensures
        lookup(resolve_all(raw)->Ok_0, name) is None,
    decreases raw.len(),
{
    if raw.len() > 0 {
        let prev = raw.drop_last();
        assert forall|j: int| 0 <= j < prev.len() implies (#[trigger] prev[j]).0 != name by {
            assert(prev[j] == raw[j]);
        }
        assert(raw[raw.len() - 1].0 != name);
        assert(prev.push(raw.last()) =~= raw);
        lemma_lookup_past_other(prev, raw.last(), name);
        lemma_absent_name_not_found(prev, name);
    }
}

/// A dependency written as a plain string gets that string as its version.
pub proof fn law_string_entry(raw: Seq<(Seq<char>, EntryModel)>, i: int, s: Seq<char>)
    requires
        names_distinct(raw),
        0 <= i < raw.len(),
        raw[i].1 == EntryModel::Text(s),
        resolve_all(raw) is Ok,
    ensures
        lookup(resolve_all(raw)->Ok_0, raw[i].0) == Some(s),
{
    lemma_resolved_entry_found(raw, i, s);
}

/// A dependency table with a string `version` gets that version, whatever
/// else the table holds.
pub proof fn law_version_field(raw: Seq<(Seq<char>, EntryModel)>, i: int, v: Seq<char>, tag: FieldModel)
    requires
        names_distinct(raw),
        0 <= i < raw.len(),
        raw[i].1 == (EntryModel::Table { version: FieldModel::Text(v), tag }),
        resolve_all(raw) is Ok,
    ensures
        lookup(resolve_all(raw)->Ok_0, raw[i].0) == Some(v),
{
    lemma_resolved_entry_found(raw, i, v);
}

/// A dependency table with a string `tag` and no `version` gets the tag as
/// its version.
pub proof fn law_tag_field(raw: Seq<(Seq<char>, EntryModel)>, i: int, t: Seq<char>)
    requires
        names_distinct(raw),
        0 <= i < raw.len(),
        raw[i].1 == (EntryModel::Table { version: FieldModel::Absent, tag: FieldModel::Text(t) }),
        resolve_all(raw) is Ok,
    ensures
        lookup(resolve_all(raw)->Ok_0, raw[i].0) == Some(t),
{
    lemma_resolved_entry_found(raw, i, t);
}

/// When a table has both a string `version` and a string `tag`, the version wins.
pub proof fn law_version_over_tag(raw: Seq<(Seq<char>, EntryModel)>, i: int, a: Seq<char>, b: Seq<char>)
    requires
        names_distinct(raw),
        0 <= i < raw.len(),
        raw[i].1 == (EntryModel::Table { version: FieldModel::Text(a), tag: FieldModel::Text(b) }),
        resolve_all(raw) is Ok,
    ensures
        lookup(resolve_all(raw)->Ok_0, raw[i].0) == Some(a),
{
    lemma_resolved_entry_found(raw, i, a);
}

/// A table with neither `version` nor `tag` makes the section fail; when no
/// earlier entry fails, the error is `MissingVersion` with its name.
pub proof fn law_missing_version(raw: Seq<(Seq<char>, EntryModel)>, i: int)
    requires
        0 <= i < raw.len(),
        raw[i].1 == (EntryModel::Table { version: FieldModel::Absent, tag: FieldModel::Absent }),
    ensures
        resolve_all(raw) is Err,
        (forall|j: int| 0 <= j < i ==> (#[trigger] resolve_entry(raw[j].0, raw[j].1)) is Ok)
            ==> resolve_all(raw) == Err::<Seq<(Seq<char>, Seq<char>)>, ErrorModel>(
            ErrorModel::MissingVersion(raw[i].0),
        ),
{
    lemma_failing_entry_fails_section(raw, i);
    if forall|j: int| 0 <= j < i ==> (#[trigger] resolve_entry(raw[j].0, raw[j].1)) is Ok {
        lemma_first_failure_reported(raw, i);
    }
}

/// A table whose `version` is not a string makes the section fail; when no
/// earlier entry fails, the error is `InvalidField` for `version` with its name.
pub proof fn law_non_string_version(raw: Seq<(Seq<char>, EntryModel)>, i: int, tag: FieldModel)
    requires
        0 <= i < raw.len(),
        raw[i].1 == (EntryModel::Table { version: FieldModel::NotText, tag }),
    ensures
        resolve_all(raw) is Err,
        (forall|j: int| 0 <= j < i ==> (#[trigger] resolve_entry(raw[j].0, raw[j].1)) is Ok)
            ==> resolve_all(raw) == Err::<Seq<(Seq<char>, Seq<char>)>, ErrorModel>(
            ErrorModel::InvalidField { name: raw[i].0, field: VersionField::Version },
        ),
{
    lemma_failing_entry_fails_section(raw, i);
    if forall|j: int| 0 <= j < i ==> (#[trigger] resolve_entry(raw[j].0, raw[j].1)) is Ok {
        lemma_first_failure_reported(raw, i);
    }
}

/// Looking up a name that no entry of the section has finds nothing.
pub proof fn law_unknown_name(raw: Seq<(Seq<char>, EntryModel)>, name: Seq<char>)
    requires
        resolve_all(raw) is Ok,
        forall|j: int| 0 <= j < raw.len() ==> (#[trigger] raw[j]).0 != name,
    ensures
        lookup(resolve_all(raw)->Ok_0, name) is None,
{
    lemma_absent_name_not_found(raw, name);
}

} // verus!
