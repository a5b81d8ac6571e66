use vstd::prelude::*;
use crate::manifest::{entries_model, names_distinct, CargoToml, Dependency};

verus! {

/// Which field of a dependency table supplied (or failed to supply) the version.
#[derive(Clone, Copy, Debug, PartialEq, Eq, Structural)]
pub enum VersionField {
    Version,
    Tag,
}

/// What a dependency table holds under one key.
#[derive(Debug)]
pub enum FieldValue {
    Absent,
    Text(String),
    NotText,
}

/// A dependency entry as decoded, before it is resolved.
#[derive(Debug)]
pub enum RawEntry {
    /// `name = "1.0"`
    Text(String),
    /// `name = { ... }`, with what it holds under `version` and under `tag`
    Table { version: FieldValue, tag: FieldValue },
    /// Any other kind of value (number, boolean, array, date).
    Other,
}

/// Why a manifest could not be read.
#[derive(Debug)]
pub enum ParseError {
    /// The text is not a document of the expected shape; carries the decoder's message.
    Malformed(String),
    /// The named dependency has a `version` or `tag` field that is not a string.
    InvalidField { name: String, field: VersionField },
    /// The named dependency is a table with neither `version` nor `tag`.
    MissingVersion(String),
}

pub enum FieldModel {
    Absent,
    Text(Seq<char>),
    NotText,
}

pub enum EntryModel {
    Text(Seq<char>),
    Table { version: FieldModel, tag: FieldModel },
    Other,
}

pub enum ErrorModel {
    Malformed(Seq<char>),
    InvalidField { name: Seq<char>, field: VersionField },
    MissingVersion(Seq<char>),
}

impl View for FieldValue {
    type V = FieldModel;

    open spec fn view(&self) -> FieldModel {
        match self {
            FieldValue::Absent => FieldModel::Absent,
            FieldValue::Text(s) => FieldModel::Text(s@),
            FieldValue::NotText => FieldModel::NotText,
        }
    }
}

impl View for RawEntry {
    type V = EntryModel;

    open spec fn view(&self) -> EntryModel {
        match self {
            RawEntry::Text(s) => EntryModel::Text(s@),
            RawEntry::Table { version, tag } => EntryModel::Table { version: version@, tag: tag@ },
            RawEntry::Other => EntryModel::Other,
        }
    }
}

impl View for ParseError {
    type V = ErrorModel;

    open spec fn view(&self) -> ErrorModel {
        match self {
            ParseError::Malformed(m) => ErrorModel::Malformed(m@),
            ParseError::InvalidField { name, field } => ErrorModel::InvalidField {
                name: name@,
                field: *field,
            },
            ParseError::MissingVersion(name) => ErrorModel::MissingVersion(name@),
        }
    }
}

/// The abstract content of a decoded dependency section.
pub open spec fn raw_model(raw: Seq<(String, RawEntry)>) -> Seq<(Seq<char>, EntryModel)> {
    raw.map_values(|p: (String, RawEntry)| (p.0@, p.1@))
}

/// How one entry resolves: to a version, to nothing (the entry is skipped),
/// or to an error. A string stands for itself; in a table `version` wins
/// over `tag`, and each must be a string.
pub open spec fn resolve_entry(name: Seq<char>, entry: EntryModel) -> Result<Option<Seq<char>>, ErrorModel> {
    match entry {
        EntryModel::Text(s) => Ok(Some(s)),
        EntryModel::Table { version, tag } => match version {
            FieldModel::Text(v) => Ok(Some(v)),
            FieldModel::NotText => Err(ErrorModel::InvalidField { name, field: VersionField::Version }),
            FieldModel::Absent => match tag {
                FieldModel::Text(t) => Ok(Some(t)),
                FieldModel::NotText => Err(ErrorModel::InvalidField { name, field: VersionField::Tag }),
                FieldModel::Absent => Err(ErrorModel::MissingVersion(name)),
            },
        },
        EntryModel::Other => Ok(None),
    }
}

/// How a whole section resolves: the resolved `(name, version)` pairs in
/// order, or the error of the first entry that fails.
pub open spec fn resolve_all(raw: Seq<(Seq<char>, EntryModel)>) -> Result<Seq<(Seq<char>, Seq<char>)>, ErrorModel>
    decreases raw.len(),
{
    if raw.len() == 0 {
        Ok(Seq::empty())
    } else {
        match resolve_all(raw.drop_last()) {
            Err(e) => Err(e),
            Ok(done) => match resolve_entry(raw.last().0, raw.last().1) {
                Err(e) => Err(e),
                Ok(None) => Ok(done),
                Ok(Some(v)) => Ok(done.push((raw.last().0, v))),
            },
        }
    }
}

/// How a document resolves, given its dependency section if it has one.
pub open spec fn resolve_section(section: Option<Seq<(Seq<char>, EntryModel)>>) -> Result<Option<Seq<(Seq<char>, Seq<char>)>>, ErrorModel> {
    match section {
        None => Ok(None),
        Some(raw) => match resolve_all(raw) {
            Ok(out) => Ok(Some(out)),
            Err(e) => Err(e),
        },
    }
}

pub open spec fn section_model(section: Option<Vec<(String, RawEntry)>>) -> Option<Seq<(Seq<char>, EntryModel)>> {
    match section {
        None => None,
        Some(raw) => Some(raw_model(raw@)),
    }
}

/// The names of the section, if there is one, are pairwise distinct.
pub open spec fn section_distinct(section: Option<Vec<(String, RawEntry)>>) -> bool {
    match section {
        None => true,
        Some(raw) => names_distinct(raw_model(raw@)),
    }
}

pub open spec fn manifest_outcome(r: Result<CargoToml, ParseError>) -> Result<Option<Seq<(Seq<char>, Seq<char>)>>, ErrorModel> {
    match r {
        Ok(m) => Ok(m.model()),
        Err(e) => Err(e@),
    }
}

fn resolve_field(name: &String, f: &FieldValue, field: VersionField) -> (r: Result<Option<String>, ParseError>)
    ensures
        match f@ {
            FieldModel::Absent => r matches Ok(None),
            FieldModel::Text(v) => r matches Ok(Some(s)) && s@ == v,
            FieldModel::NotText => r matches Err(e) && e@ == (ErrorModel::InvalidField { name: name@, field }),
        },
{
    match f {
        FieldValue::Absent => Ok(None),
        FieldValue::Text(s) => Ok(Some(s.clone())),
        FieldValue::NotText => Err(ParseError::InvalidField { name: name.clone(), field }),
    }
}

/// Resolves one entry of the dependency section.
pub fn resolve_dependency(name: &String, entry: &RawEntry) -> (r: Result<Option<String>, ParseError>)
    ensures
        match r {
            Ok(None) => resolve_entry(name@, entry@) == Ok::<Option<Seq<char>>, ErrorModel>(None),
            Ok(Some(s)) => resolve_entry(name@, entry@) == Ok::<Option<Seq<char>>, ErrorModel>(Some(s@)),
            Err(e) => resolve_entry(name@, entry@) == Err::<Option<Seq<char>>, ErrorModel>(e@),
        },
{
    match entry {
        RawEntry::Text(s) => Ok(Some(s.clone())),
        RawEntry::Table { version, tag } => {
            let v = resolve_field(name, version, VersionField::Version)?;
            match v {
                Some(s) => Ok(Some(s)),
                None => match resolve_field(name, tag, VersionField::Tag)? {
                    Some(t) => Ok(Some(t)),
                    None => Err(ParseError::MissingVersion(name.clone())),
                },
            }
        },
        RawEntry::Other => Ok(None),
    }
}

/// Every name that the resolved list holds is the name of an entry of the
/// section, and distinct names stay distinct.
pub proof fn lemma_resolved_names(raw: Seq<(Seq<char>, EntryModel)>)
    requires
        resolve_all(raw) is Ok,
    ensures
        forall|k: int|
            0 <= k < resolve_all(raw)->Ok_0.len() ==> exists|j: int|
                0 <= j < raw.len() && raw[j].0 == #[trigger] resolve_all(raw)->Ok_0[k].0,
        names_distinct(raw) ==> names_distinct(resolve_all(raw)->Ok_0),
    decreases raw.len(),
{
    if raw.len() > 0 {
        let prev = raw.drop_last();
        lemma_resolved_names(prev);
        let done = resolve_all(prev)->Ok_0;
        let out = resolve_all(raw)->Ok_0;
        assert forall|k: int| 0 <= k < out.len() implies exists|j: int|
            0 <= j < raw.len() && raw[j].0 == #[trigger] out[k].0 by {
            if k < done.len() {
                let j = choose|j: int| 0 <= j < prev.len() && prev[j].0 == done[k].0;
                assert(raw[j] == prev[j]);
            } else {
                assert(raw[raw.len() - 1].0 == out[k].0);
            }
        }
        if names_distinct(raw) {
            assert forall|a: int, b: int| 0 <= a < b < out.len() implies #[trigger] out[a].0
                != #[trigger] out[b].0 by {
                if b >= done.len() {
                    let j = choose|j: int| 0 <= j < prev.len() && prev[j].0 == done[a].0;
                    assert(raw[j] == prev[j]);
                    assert(raw[j].0 != raw[raw.len() - 1].0);
                }
            }
        }
    }
}

/// Resolves every entry of a dependency section, in order; fails with the
/// error of the first entry that fails.
pub fn resolve_dependencies(raw: &Vec<(String, RawEntry)>) -> (r: Result<Vec<(String, Dependency)>, ParseError>)
    ensures
        match r {
            Ok(deps) => resolve_all(raw_model(raw@)) == Ok::<Seq<(Seq<char>, Seq<char>)>, ErrorModel>(entries_model(deps@)),
            Err(e) => resolve_all(raw_model(raw@)) == Err::<Seq<(Seq<char>, Seq<char>)>, ErrorModel>(e@),
        },
        r is Ok && names_distinct(raw_model(raw@)) ==> names_distinct(entries_model(r->Ok_0@)),
{
    let ghost model = raw_model(raw@);
    let mut deps: Vec<(String, Dependency)> = Vec::new();
    let mut i: usize = 0;
    assert(model.subrange(0, 0) =~= Seq::<(Seq<char>, EntryModel)>::empty());
    assert(entries_model(deps@) =~= Seq::<(Seq<char>, Seq<char>)>::empty());
    while i < raw.len()
        invariant
            i <= raw@.len(),
            model == raw_model(raw@),
            resolve_all(model.subrange(0, i as int)) == Ok::<Seq<(Seq<char>, Seq<char>)>, ErrorModel>(entries_model(deps@)),
        decreases raw.len() - i,
    {
        let ghost prefix = model.subrange(0, i as int + 1);
        assert(prefix.drop_last() =~= model.subrange(0, i as int));
        assert(prefix.last() == (raw@[i as int].0@, raw@[i as int].1@));
        match resolve_dependency(&raw[i].0, &raw[i].1) {
            Err(e) => {
                proof { lemma_error_persists(model, i as int + 1); }
                return Err(e);
            },
            Ok(None) => {},
            Ok(Some(version)) => {
                let ghost before = deps@;
                let ghost v = version@;
                deps.push((raw[i].0.clone(), Dependency { version }));
                assert(entries_model(deps@) =~= entries_model(before).push((prefix.last().0, v)));
            },
        }
        i = i + 1;
    }
    assert(model.subrange(0, i as int) =~= model);
    proof { lemma_resolved_names(model); }
    Ok(deps)
}

/// Once a prefix of a section fails, the whole section fails with the same error.
pub proof fn lemma_error_persists(raw: Seq<(Seq<char>, EntryModel)>, n: int)
    requires
        0 <= n <= raw.len(),
        resolve_all(raw.subrange(0, n)) is Err,
    ensures
        resolve_all(raw) == resolve_all(raw.subrange(0, n)),
    decreases raw.len() - n,
{
    if n < raw.len() {
        let next = raw.subrange(0, n + 1);
        assert(next.drop_last() =~= raw.subrange(0, n));
        lemma_error_persists(raw, n + 1);
    } else {
        assert(raw.subrange(0, n) =~= raw);
    }
}

/// Builds the manifest from the document's dependency section, if it has one.
/// A document without that section gives a manifest without dependencies.
pub fn build_manifest(section: Option<Vec<(String, RawEntry)>>) -> (r: Result<CargoToml, ParseError>)
    ensures
        manifest_outcome(r) == resolve_section(section_model(section)),
        section is None ==> (r matches Ok(m) && m.dependencies is None),
        r is Ok ==> (section_distinct(section) ==> r->Ok_0.well_formed()),
{
    match section {
        None => Ok(CargoToml { dependencies: None }),
        Some(raw) => {
            let deps = resolve_dependencies(&raw)?;
            Ok(CargoToml { dependencies: Some(deps) })
        },
    }
}

} // verus!
