use vstd::prelude::*;

verus! {

/// One resolved dependency: the version or tag string it names.
#[derive(Debug)]
pub struct Dependency {
    pub version: String,
}

/// The parsed manifest: `None` when the document has no dependency section,
/// otherwise one `(name, dependency)` pair per entry, names pairwise distinct.
#[derive(Debug)]
pub struct CargoToml {
    pub dependencies: Option<Vec<(String, Dependency)>>,
}

/// The version found for `name` in a list of `(name, version)` pairs; when a
/// name occurs more than once the last pair counts.
pub open spec fn lookup(entries: Seq<(Seq<char>, Seq<char>)>, name: Seq<char>) -> Option<Seq<char>>
    decreases entries.len(),
{
    if entries.len() == 0 {
        None
    } else if entries.last().0 == name {
        Some(entries.last().1)
    } else {
        lookup(entries.drop_last(), name)
    }
}

/// The names of a list of pairs are pairwise distinct.
pub open spec fn names_distinct<V>(entries: Seq<(Seq<char>, V)>) -> bool {
    forall|i: int, j: int|
        0 <= i < j < entries.len() ==> #[trigger] entries[i].0 != #[trigger] entries[j].0
}

/// The abstract content of a list of resolved dependencies.
pub open spec fn entries_model(deps: Seq<(String, Dependency)>) -> Seq<(Seq<char>, Seq<char>)> {
    deps.map_values(|p: (String, Dependency)| (p.0@, p.1.version@))
}

impl CargoToml {
    /// The abstract content: absent, or the `(name, version)` pairs.
    pub open spec fn model(&self) -> Option<Seq<(Seq<char>, Seq<char>)>> {
        match &self.dependencies {
            None => None,
            Some(deps) => Some(entries_model(deps@)),
        }
    }

    /// Every dependency name occurs once.
    pub open spec fn well_formed(&self) -> bool {
        match self.model() {
            None => true,
            Some(entries) => names_distinct(entries),
        }
    }

    /// The version recorded for `name`, if the manifest has a dependency of that name.
    pub open spec fn version_of(&self, name: Seq<char>) -> Option<Seq<char>> {
        match self.model() {
            None => None,
            Some(entries) => lookup(entries, name),
        }
    }

    /// The dependency called `name`; `None` when there is no dependency section
    /// or no entry of that name.
    pub fn get_dependency(&self, name: &str) -> (r: Option<&Dependency>)
        ensures
            r is None <==> self.version_of(name@) is None,
            r is Some ==> self.version_of(name@) == Some(r->Some_0.version@),
    {
        match &self.dependencies {
            None => None,
            Some(deps) => {
                let key = name.to_owned();
                let mut i: usize = deps.len();
                assert(deps@.subrange(0, i as int) =~= deps@);
                while i > 0
                    invariant
                        i <= deps@.len(),
                        key@ == name@,
                        self.version_of(name@) == lookup(entries_model(deps@), name@),
                        lookup(entries_model(deps@), name@) == lookup(
                            entries_model(deps@.subrange(0, i as int)),
                            name@,
                        ),
                    decreases i,
                {
                    let ghost prefix = entries_model(deps@.subrange(0, i as int));
                    assert(entries_model(deps@.subrange(0, i as int - 1)) =~= prefix.drop_last());
                    assert(prefix.last() == (deps@[i - 1].0@, deps@[i - 1].1.version@));
                    if deps[i - 1].0 == key {
                        return Some(&deps[i - 1].1);
                    }
                    i = i - 1;
                }
                assert(entries_model(deps@.subrange(0, 0)) =~= Seq::<(Seq<char>, Seq<char>)>::empty());
                None
            },
        }
    }
}

} // verus!
