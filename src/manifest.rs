//! The manifest's data model and its validation: permissive dependency entries
//! become one canonical source kind, and every table is checked entry by entry.
use vstd::prelude::*;

verus! {

/// A dependency as written in the manifest: every field optional.
#[derive(Clone, Debug, PartialEq)]
pub struct Dependency {
    pub version: Option<String>,
    pub path: Option<String>,
    pub git: Option<String>,
    pub branch: Option<String>,
    pub rev: Option<String>,
    pub features: Option<Vec<String>>,
}

/// A dependency entry: a full table, or a bare version string.
#[derive(Clone, Debug, PartialEq)]
pub enum DependencyOrString {
    Dependency(Dependency),
    String(String),
}

/// Where a validated dependency comes from: exactly one kind.
#[derive(Clone, Debug, PartialEq)]
pub enum DependencySource {
    Version(String),
    Path(String),
    Git { url: String, branch: Option<String>, rev: Option<String> },
}

/// A validated dependency: its source and the features it enables.
#[derive(Clone, Debug, PartialEq)]
pub struct ParsedDependency {
    pub source: DependencySource,
    pub features: Option<Vec<String>>,
}

/// The table a dependency entry belongs to, carried in errors.
#[derive(Clone, Debug, PartialEq)]
pub enum TableKind {
    Dependencies,
    DevDependencies,
    Feature(String),
}

/// A rule of the manifest that a well-formed document breaks.
#[derive(Clone, Debug, PartialEq)]
pub enum SemanticError {
    MissingSource { table: TableKind, name: String },
    ConflictingSources { table: TableKind, name: String },
    ConflictingGitRef { table: TableKind, name: String },
    UndefinedFeature { name: String },
    FeatureCycle,
}

/// Why a manifest could not be resolved.
#[derive(Clone, Debug, PartialEq)]
pub enum ManifestError {
    Io(String),
    Syntax(String),
    Semantic(SemanticError),
}

/// A named feature as written: its own dependency table, the extra files it
/// brings in, and the features it depends on.
#[derive(Clone, Debug, PartialEq)]
pub struct Feature {
    pub dependencies: Vec<(String, DependencyOrString)>,
    pub files: Vec<String>,
    pub depends_on: Option<Vec<String>>,
}

/// A feature whose dependency table has been validated.
#[derive(Clone, Debug, PartialEq)]
pub struct ParsedFeature {
    pub dependencies: Vec<(String, ParsedDependency)>,
    pub files: Vec<String>,
    pub depends_on: Option<Vec<String>>,
}

/// Where the package's source is kept.
#[derive(Clone, Debug, PartialEq)]
pub struct PackageRepository {
    pub kind: String,
    pub url: String,
}

/// The package's metadata.
#[derive(Clone, Debug, PartialEq)]
pub struct IkePackage {
    pub name: String,
    pub version: String,
    pub description: Option<String>,
    pub files: Option<Vec<String>>,
    pub main: Option<String>,
    pub types: Option<String>,
    pub repository: Option<PackageRepository>,
}

/// The manifest as decoded, before validation. Each table is a list of
/// `(key, value)` pairs, keys unique (see `manifest_keys_unique`); validation
/// keeps the order given.
#[derive(Clone, Debug, PartialEq)]
pub struct IkeTomlStruct {
    pub package: IkePackage,
    pub dependencies: Option<Vec<(String, DependencyOrString)>>,
    pub dev_dependencies: Option<Vec<(String, DependencyOrString)>>,
    pub tasks: Option<Vec<(String, String)>>,
    pub features: Option<Vec<(String, Feature)>>,
}

/// The validated manifest: every dependency in canonical form.
#[derive(Clone, Debug, PartialEq)]
pub struct ParsedIkeTomlStruct {
    pub package: IkePackage,
    pub dependencies: Vec<(String, ParsedDependency)>,
    pub dev_dependencies: Vec<(String, ParsedDependency)>,
    pub tasks: Vec<(String, String)>,
    pub features: Vec<(String, ParsedFeature)>,
}

/// A resolved manifest and the file it was read from.
#[derive(Clone, Debug, PartialEq)]
pub struct IkeToml {
    pub toml: ParsedIkeTomlStruct,
    pub file_path: Option<String>,
}

/// The table form of a dependency entry: a bare string is a version.
pub open spec fn expand(d: DependencyOrString) -> Dependency {
    match d {
        DependencyOrString::Dependency(x) => x,
        DependencyOrString::String(v) => Dependency {
            version: Some(v),
            path: None,
            git: None,
            branch: None,
            rev: None,
            features: None,
        },
    }
}

/// The number of source kinds (`version`, `path`, `git`) that are set.
pub open spec fn source_count(d: Dependency) -> nat {
    (if d.version is Some { 1nat } else { 0nat }) + (if d.path is Some { 1nat } else { 0nat }) + (
    if d.git is Some {
        1nat
    } else {
        0nat
    })
}

/// The outcome of validating one entry named `name` of table `table`.
pub open spec fn check_dependency(
    table: TableKind,
    name: String,
    entry: DependencyOrString,
) -> Result<ParsedDependency, SemanticError> {
    let d = expand(entry);
    if source_count(d) == 0 {
        Err(SemanticError::MissingSource { table, name })
    } else if source_count(d) > 1 {
        Err(SemanticError::ConflictingSources { table, name })
    } else if d.git is Some && d.branch is Some && d.rev is Some && d.path is Some {
        Err(SemanticError::ConflictingGitRef { table, name })
    } else {
        let source = if d.version is Some {
            DependencySource::Version(d.version->0)
        } else if d.path is Some {
            DependencySource::Path(d.path->0)
        } else {
            DependencySource::Git { url: d.git->0, branch: d.branch, rev: d.rev }
        };
        Ok(ParsedDependency { source, features: d.features })
    }
}

/// Validates a whole table in order: the first entry that fails decides the error.
pub open spec fn check_table(
    table: TableKind,
    entries: Seq<(String, DependencyOrString)>,
) -> Result<Seq<(String, ParsedDependency)>, SemanticError>
    decreases entries.len(),
{
    if entries.len() == 0 {
        Ok(Seq::empty())
    } else {
        match check_dependency(table, entries[0].0, entries[0].1) {
            Err(e) => Err(e),
            Ok(p) => prepend(seq![(entries[0].0, p)], check_table(table, entries.drop_first())),
        }
    }
}

/// `done` followed by the validated rest, or the rest's error.
pub open spec fn prepend<T, E>(done: Seq<T>, rest: Result<Seq<T>, E>) -> Result<Seq<T>, E> {
    match rest {
        Ok(s) => Ok(done + s),
        Err(e) => Err(e),
    }
}

/// The first error among the features' dependency tables, in order.
pub open spec fn check_features(features: Seq<(String, Feature)>) -> Option<SemanticError>
    decreases features.len(),
{
    if features.len() == 0 {
        None
    } else {
        match check_table(TableKind::Feature(features[0].0), features[0].1.dependencies@) {
            Err(e) => Some(e),
            Ok(_) => check_features(features.drop_first()),
        }
    }
}

/// `parsed` is `raw` with its dependency table validated and the rest kept.
pub open spec fn feature_resolved(raw: (String, Feature), parsed: (String, ParsedFeature)) -> bool {
    &&& parsed.0 == raw.0
    &&& check_table(TableKind::Feature(raw.0), raw.1.dependencies@) == Ok::<_, SemanticError>(
        parsed.1.dependencies@,
    )
    &&& parsed.1.files == raw.1.files
    &&& parsed.1.depends_on == raw.1.depends_on
}

/// Every feature of `raw` resolved, in the same order.
pub open spec fn features_resolved(raw: Seq<(String, Feature)>, parsed: Seq<(String, ParsedFeature)>) -> bool {
    &&& parsed.len() == raw.len()
    &&& forall|i: int| 0 <= i < raw.len() ==> #[trigger] feature_resolved(raw[i], parsed[i])
}

/// The entries of an optional table; an absent table has none.
pub open spec fn entries_of<T>(t: Option<Vec<T>>) -> Seq<T> {
    match t {
        Some(v) => v@,
        None => Seq::empty(),
    }
}

/// The first rule that the manifest breaks: dependencies, then development
/// dependencies, then the features, each in the order given.
pub open spec fn manifest_error(m: IkeTomlStruct) -> Option<SemanticError> {
    match check_table(TableKind::Dependencies, entries_of(m.dependencies)) {
        Err(e) => Some(e),
        Ok(_) => match check_table(TableKind::DevDependencies, entries_of(m.dev_dependencies)) {
            Err(e) => Some(e),
            Ok(_) => check_features(entries_of(m.features)),
        },
    }
}

/// `p` is the validated form of `m`.
pub open spec fn manifest_resolved(m: IkeTomlStruct, p: ParsedIkeTomlStruct) -> bool {
    &&& p.package == m.package
    &&& check_table(TableKind::Dependencies, entries_of(m.dependencies)) == Ok::<
        _,
        SemanticError,
    >(p.dependencies@)
    &&& check_table(TableKind::DevDependencies, entries_of(m.dev_dependencies)) == Ok::<
        _,
        SemanticError,
    >(p.dev_dependencies@)
    &&& p.tasks@ == entries_of(m.tasks)
    &&& features_resolved(entries_of(m.features), p.features@)
}

/// A bare version string and a table holding only that version validate to
/// the same canonical dependency.
pub proof fn lemma_shorthand_is_version_table(table: TableKind, name: String, v: String)
    ensures
        check_dependency(table, name, DependencyOrString::String(v)) == check_dependency(
            table,
            name,
            DependencyOrString::Dependency(
                Dependency {
                    version: Some(v),
                    path: None,
                    git: None,
                    branch: None,
                    rev: None,
                    features: None,
                },
            ),
        ),
        check_dependency(table, name, DependencyOrString::String(v)) is Ok,
{
}

/// An entry that sets both `path` and `git` is rejected, whatever else it sets.
pub proof fn lemma_path_and_git_rejected(table: TableKind, name: String, d: Dependency)
    requires
        d.path is Some,
        d.git is Some,
    ensures
        check_dependency(table, name, DependencyOrString::Dependency(d)) is Err,
{
}

/// An entry that sets none of `version`, `path` and `git` is rejected.
pub proof fn lemma_no_source_rejected(table: TableKind, name: String, d: Dependency)
    requires
        d.version is None,
        d.path is None,
        d.git is None,
    ensures
        check_dependency(table, name, DependencyOrString::Dependency(d)) == Err::<
            ParsedDependency,
            _,
        >(SemanticError::MissingSource { table, name }),
{
}

/// A git entry with `branch`, `rev` and `path` all set is rejected; a git entry
/// with `branch` and `rev` and no other source kind is accepted, and keeps both.
pub proof fn lemma_git_reference_combinations(table: TableKind, name: String, d: Dependency)
    requires
        d.git is Some,
        d.branch is Some,
        d.rev is Some,
    ensures
        d.path is Some ==> check_dependency(table, name, DependencyOrString::Dependency(d)) is Err,
        d.path is None && d.version is None ==> check_dependency(
            table,
            name,
            DependencyOrString::Dependency(d),
        ) == Ok::<_, SemanticError>(
            ParsedDependency {
                source: DependencySource::Git { url: d.git->0, branch: d.branch, rev: d.rev },
                features: d.features,
            },
        ),
{
}

/// A table that validates keeps its names, in order, each with the canonical
/// form of its own entry; so names unique in the written table stay unique.
pub proof fn lemma_check_table_keeps_names(
    table: TableKind,
    entries: Seq<(String, DependencyOrString)>,
)
    requires
        check_table(table, entries) is Ok,
    ensures
        ({
            let out = check_table(table, entries)->Ok_0;
            &&& out.len() == entries.len()
            &&& forall|i: int|
                0 <= i < entries.len() ==> (#[trigger] out[i]).0 == entries[i].0 && check_dependency(
                    table,
                    entries[i].0,
                    entries[i].1,
                ) == Ok::<_, SemanticError>(out[i].1)
        }),
    decreases entries.len(),
{
    if entries.len() > 0 {
        let rest = entries.drop_first();
        lemma_check_table_keeps_names(table, rest);
        let out = check_table(table, entries)->Ok_0;
        let tail = check_table(table, rest)->Ok_0;
        assert forall|i: int| 0 <= i < entries.len() implies (#[trigger] out[i]).0 == entries[i].0
            && check_dependency(table, entries[i].0, entries[i].1) == Ok::<_, SemanticError>(
            out[i].1,
        ) by {
            if i > 0 {
                assert(out[i] == tail[i - 1]);
                assert(entries[i] == rest[i - 1]);
            }
        }
    }
}

/// No two entries of `s` have the same key.
pub open spec fn keys_unique<T>(s: Seq<(String, T)>) -> bool {
    forall|i: int, j: int| 0 <= i < j < s.len() ==> (#[trigger] s[i]).0@ != (#[trigger] s[j]).0@
}

/// Every table of the written manifest has unique keys, the features' own
/// dependency tables included.
pub open spec fn manifest_keys_unique(m: IkeTomlStruct) -> bool {
    &&& keys_unique(entries_of(m.dependencies))
    &&& keys_unique(entries_of(m.dev_dependencies))
    &&& keys_unique(entries_of(m.tasks))
    &&& keys_unique(entries_of(m.features))
    &&& forall|i: int|
        0 <= i < entries_of(m.features).len() ==> keys_unique(
            (#[trigger] entries_of(m.features)[i]).1.dependencies@,
        )
}

/// Every table of the validated manifest has unique keys.
pub open spec fn parsed_keys_unique(p: ParsedIkeTomlStruct) -> bool {
    &&& keys_unique(p.dependencies@)
    &&& keys_unique(p.dev_dependencies@)
    &&& keys_unique(p.tasks@)
    &&& keys_unique(p.features@)
    &&& forall|i: int|
        0 <= i < p.features@.len() ==> keys_unique((#[trigger] p.features@[i]).1.dependencies@)
}

/// Validation keeps the keys of a table unique.
pub proof fn lemma_check_table_keeps_unique(
    table: TableKind,
    entries: Seq<(String, DependencyOrString)>,
)
    requires
        check_table(table, entries) is Ok,
        keys_unique(entries),
    ensures
        keys_unique(check_table(table, entries)->Ok_0),
{
    lemma_check_table_keeps_names(table, entries);
    let out = check_table(table, entries)->Ok_0;
    assert forall|i: int, j: int| 0 <= i < j < out.len() implies (#[trigger] out[i]).0@ != (
    #[trigger] out[j]).0@ by {
        assert(out[i].0 == entries[i].0);
        assert(out[j].0 == entries[j].0);
        assert(entries[i].0@ != entries[j].0@);
    }
}

impl TableKind {
    /// A copy of this table kind.
    pub fn copy(&self) -> (r: TableKind)
        ensures
            r == *self,
    {
        match self {
            TableKind::Dependencies => TableKind::Dependencies,
            TableKind::DevDependencies => TableKind::DevDependencies,
            TableKind::Feature(n) => TableKind::Feature(n.clone()),
        }
    }
}

/// Validates one entry and turns it into its canonical form.
pub fn validate_dependency(table: &TableKind, name: &String, entry: DependencyOrString) -> (r:
    Result<ParsedDependency, SemanticError>)
    ensures
        r == check_dependency(*table, *name, entry),
{
    let d = match entry {
        DependencyOrString::Dependency(x) => x,
        DependencyOrString::String(v) => Dependency {
            version: Some(v),
            path: None,
            git: None,
            branch: None,
            rev: None,
            features: None,
        },
    };
    let has_version = d.version.is_some();
    let has_path = d.path.is_some();
    let has_git = d.git.is_some();
    if !has_version && !has_path && !has_git {
        return Err(SemanticError::MissingSource { table: table.copy(), name: name.clone() });
    }
    if (has_version && (has_path || has_git)) || (has_path && has_git) {
        return Err(SemanticError::ConflictingSources { table: table.copy(), name: name.clone() });
    }
    if has_git && d.branch.is_some() && d.rev.is_some() && has_path {
        return Err(SemanticError::ConflictingGitRef { table: table.copy(), name: name.clone() });
    }
    let Dependency { version, path, git, branch, rev, features } = d;
    let source = match version {
        Some(v) => DependencySource::Version(v),
        None => match path {
            Some(p) => DependencySource::Path(p),
            None => match git {
                Some(url) => DependencySource::Git { url, branch, rev },
                None => {
                    return Err(
                        SemanticError::MissingSource { table: table.copy(), name: name.clone() },
                    );
                },
            },
        },
    };
    Ok(ParsedDependency { source, features })
}

impl IkeTomlStruct {
    /// Validates every entry of a table, keeping names and order.
    pub fn parse_dependencies(table: &TableKind, entries: Vec<(String, DependencyOrString)>) -> (r:
        Result<Vec<(String, ParsedDependency)>, SemanticError>)
        ensures
            match r {
                Ok(v) => check_table(*table, entries@) == Ok::<_, SemanticError>(v@) && (keys_unique(
                    entries@,
                ) ==> keys_unique(v@)),
                Err(e) => check_table(*table, entries@) == Err::<Seq<(String, ParsedDependency)>, _>(
                    e,
                ),
            },
    {
        let mut rest = entries;
        let mut out: Vec<(String, ParsedDependency)> = Vec::new();
        while rest.len() > 0
            invariant
                check_table(*table, entries@) == prepend(out@, check_table(*table, rest@)),
            decreases rest.len(),
        {
            let ghost before = rest@;
            let (name, entry) = rest.remove(0);
            assert(rest@ == before.drop_first());
            match validate_dependency(table, &name, entry) {
                Err(e) => {
                    return Err(e);
                },
                Ok(p) => {
                    let ghost tail = check_table(*table, rest@);
                    let ghost old_out = out@;
                    out.push((name, p));
                    assert(old_out + seq![(name, p)] == out@);
                    proof {
                        if let Ok(s) = tail {
                            assert(old_out + (seq![(name, p)] + s) == out@ + s);
                        }
                    }
                },
            }
        }
        assert(out@ + Seq::<(String, ParsedDependency)>::empty() == out@);
        proof {
            if keys_unique(entries@) {
                lemma_check_table_keeps_unique(*table, entries@);
            }
        }
        Ok(out)
    }

    /// Validates each feature's dependency table; files and `depends_on` are kept
    /// as written.
    pub fn parse_features(features: Vec<(String, Feature)>) -> (r: Result<
        Vec<(String, ParsedFeature)>,
        SemanticError,
    >)
        ensures
            match r {
                Ok(v) => check_features(features@) is None && features_resolved(features@, v@) && (
                keys_unique(features@) ==> keys_unique(v@)) && forall|i: int|
                    0 <= i < v@.len() && keys_unique(features@[i].1.dependencies@) ==> keys_unique(
                        (#[trigger] v@[i]).1.dependencies@,
                    ),
                Err(e) => check_features(features@) == Some(e),
            },
    {
        let mut rest = features;
        let mut out: Vec<(String, ParsedFeature)> = Vec::new();
        while rest.len() > 0
            invariant
                out@.len() + rest@.len() == features@.len(),
                rest@ == features@.skip(out@.len() as int),
                forall|i: int| 0 <= i < out@.len() ==> #[trigger] feature_resolved(features@[i], out@[i]),
                forall|i: int|
                    0 <= i < out@.len() && keys_unique(features@[i].1.dependencies@) ==> keys_unique(
                        (#[trigger] out@[i]).1.dependencies@,
                    ),
                check_features(features@) == check_features(rest@),
            decreases rest.len(),
        {
            let ghost before = rest@;
            let (name, feature) = rest.remove(0);
            assert(rest@ == before.drop_first());
            let Feature { dependencies, files, depends_on } = feature;
            let table = TableKind::Feature(name.clone());
            let deps = match IkeTomlStruct::parse_dependencies(&table, dependencies) {
                Ok(d) => d,
                Err(e) => {
                    return Err(e);
                },
            };
            let ghost k = out@.len();
            assert(before[0] == features@[k as int]);
            out.push((name, ParsedFeature { dependencies: deps, files, depends_on }));
            assert(rest@ == features@.skip(out@.len() as int));
            assert(out@[k as int].1.dependencies == deps);
        }
        proof {
            assert(out@.len() == features@.len());
            if keys_unique(features@) {
                assert forall|i: int, j: int| 0 <= i < j < out@.len() implies (#[trigger] out@[i]).0@
                    != (#[trigger] out@[j]).0@ by {
                    assert(feature_resolved(features@[i], out@[i]));
                    assert(feature_resolved(features@[j], out@[j]));
                    assert(features@[i].0@ != features@[j].0@);
                }
            }
        }
        Ok(out)
    }

    /// Validates the whole manifest. Nothing partial is returned: either every
    /// table is valid, or the first rule broken is reported.
    pub fn to_parsed(self) -> (r: Result<ParsedIkeTomlStruct, SemanticError>)
        ensures
            match r {
                Ok(p) => manifest_error(self) is None && manifest_resolved(self, p) && (
                manifest_keys_unique(self) ==> parsed_keys_unique(p)),
                Err(e) => manifest_error(self) == Some(e),
            },
    {
        let IkeTomlStruct { package, dependencies, dev_dependencies, tasks, features } = self;
        let dependencies = match dependencies {
            Some(v) => v,
            None => Vec::new(),
        };
        let dev_dependencies = match dev_dependencies {
            Some(v) => v,
            None => Vec::new(),
        };
        let tasks = match tasks {
            Some(v) => v,
            None => Vec::new(),
        };
        let features = match features {
            Some(v) => v,
            None => Vec::new(),
        };
        let parsed_dependencies = IkeTomlStruct::parse_dependencies(
            &TableKind::Dependencies,
            dependencies,
        )?;
        let parsed_dev_dependencies = IkeTomlStruct::parse_dependencies(
            &TableKind::DevDependencies,
            dev_dependencies,
        )?;
        let parsed_features = IkeTomlStruct::parse_features(features)?;
        Ok(
            ParsedIkeTomlStruct {
                package,
                dependencies: parsed_dependencies,
                dev_dependencies: parsed_dev_dependencies,
                tasks,
                features: parsed_features,
            },
        )
    }
}

impl IkeToml {
    /// Resolves the manifest read from `file_path`. `decoded` is the outcome of
    /// reading and decoding that file: its I/O or syntax error is passed on, and
    /// a decoded manifest is validated.
    pub fn from_file(file_path: String, decoded: Result<IkeTomlStruct, ManifestError>) -> (r: Result<
        IkeToml,
        ManifestError,
    >)
        ensures
            match decoded {
                Err(e) => r == Err::<IkeToml, _>(e),
                Ok(m) => match manifest_error(m) {
                    Some(e) => r == Err::<IkeToml, _>(ManifestError::Semantic(e)),
                    None => r is Ok && manifest_resolved(m, r->Ok_0.toml) && r->Ok_0.file_path
                        == Some(file_path),
                },
            },
    {
        let raw = match decoded {
            Ok(m) => m,
            Err(e) => {
                return Err(e);
            },
        };
        match raw.to_parsed() {
            Ok(toml) => Ok(IkeToml { toml, file_path: Some(file_path) }),
            Err(e) => Err(ManifestError::Semantic(e)),
        }
    }
}

} // verus!
