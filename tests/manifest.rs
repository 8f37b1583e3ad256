use ike::manifest::{
    Dependency, DependencyOrString, DependencySource, Feature, IkePackage, IkeToml,
    IkeTomlStruct, ManifestError, ParsedDependency, SemanticError, TableKind,
};

fn s(x: &str) -> String {
    x.to_string()
}

fn empty_dep() -> Dependency {
    Dependency { version: None, path: None, git: None, branch: None, rev: None, features: None }
}

fn package() -> IkePackage {
    IkePackage {
        name: s("demo"),
        version: s("0.1.0"),
        description: None,
        files: None,
        main: None,
        types: None,
        repository: None,
    }
}

fn manifest(deps: Vec<(String, DependencyOrString)>) -> IkeTomlStruct {
    IkeTomlStruct {
        package: package(),
        dependencies: Some(deps),
        dev_dependencies: None,
        tasks: None,
        features: None,
    }
}

#[test]
fn shorthand_equals_version_table() {
    let short = IkeTomlStruct::parse_dependencies(
        &TableKind::Dependencies,
        vec![(s("dep"), DependencyOrString::String(s("1.2.3")))],
    );
    let table = IkeTomlStruct::parse_dependencies(
        &TableKind::Dependencies,
        vec![(
            s("dep"),
            DependencyOrString::Dependency(Dependency { version: Some(s("1.2.3")), ..empty_dep() }),
        )],
    );
    assert_eq!(short, table);
    assert_eq!(
        short.unwrap(),
        vec![(
            s("dep"),
            ParsedDependency { source: DependencySource::Version(s("1.2.3")), features: None }
        )]
    );
}

#[test]
fn path_and_git_rejected() {
    let d = Dependency {
        path: Some(s("../x")),
        git: Some(s("https://example.com/x.git")),
        branch: Some(s("main")),
        ..empty_dep()
    };
    let r = IkeTomlStruct::parse_dependencies(
        &TableKind::Dependencies,
        vec![(s("x"), DependencyOrString::Dependency(d))],
    );
    assert_eq!(
        r,
        Err(SemanticError::ConflictingSources { table: TableKind::Dependencies, name: s("x") })
    );
}

#[test]
fn version_and_path_rejected() {
    let d = Dependency { version: Some(s("1")), path: Some(s("../x")), ..empty_dep() };
    let r = ike::manifest::validate_dependency(
        &TableKind::DevDependencies,
        &s("x"),
        DependencyOrString::Dependency(d),
    );
    assert_eq!(
        r,
        Err(SemanticError::ConflictingSources { table: TableKind::DevDependencies, name: s("x") })
    );
}

#[test]
fn no_source_rejected() {
    let d = Dependency { branch: Some(s("main")), features: Some(vec![s("f")]), ..empty_dep() };
    let r = ike::manifest::validate_dependency(
        &TableKind::Dependencies,
        &s("lonely"),
        DependencyOrString::Dependency(d),
    );
    assert_eq!(
        r,
        Err(SemanticError::MissingSource { table: TableKind::Dependencies, name: s("lonely") })
    );
}

#[test]
fn git_branch_rev_path_rejected() {
    let d = Dependency {
        git: Some(s("https://example.com/x.git")),
        branch: Some(s("main")),
        rev: Some(s("abc123")),
        path: Some(s("sub")),
        ..empty_dep()
    };
    let r = ike::manifest::validate_dependency(
        &TableKind::Dependencies,
        &s("x"),
        DependencyOrString::Dependency(d),
    );
    assert!(r.is_err());
}

#[test]
fn git_branch_rev_accepted() {
    let d = Dependency {
        git: Some(s("https://example.com/x.git")),
        branch: Some(s("main")),
        rev: Some(s("abc123")),
        features: Some(vec![s("extra")]),
        ..empty_dep()
    };
    let r = ike::manifest::validate_dependency(
        &TableKind::Dependencies,
        &s("x"),
        DependencyOrString::Dependency(d),
    );
    assert_eq!(
        r,
        Ok(ParsedDependency {
            source: DependencySource::Git {
                url: s("https://example.com/x.git"),
                branch: Some(s("main")),
                rev: Some(s("abc123")),
            },
            features: Some(vec![s("extra")]),
        })
    );
}

#[test]
fn git_branch_alone_accepted() {
    let d = Dependency {
        git: Some(s("https://example.com/x.git")),
        branch: Some(s("dev")),
        ..empty_dep()
    };
    let r = ike::manifest::validate_dependency(
        &TableKind::Dependencies,
        &s("x"),
        DependencyOrString::Dependency(d),
    );
    assert_eq!(
        r.unwrap().source,
        DependencySource::Git { url: s("https://example.com/x.git"), branch: Some(s("dev")), rev: None }
    );
}

#[test]
fn path_dependency_canonical() {
    let d = Dependency { path: Some(s("../lib")), ..empty_dep() };
    let r = ike::manifest::validate_dependency(
        &TableKind::Dependencies,
        &s("lib"),
        DependencyOrString::Dependency(d),
    );
    assert_eq!(r.unwrap().source, DependencySource::Path(s("../lib")));
}

#[test]
fn first_invalid_entry_reported() {
    let r = IkeTomlStruct::parse_dependencies(
        &TableKind::Dependencies,
        vec![
            (s("ok"), DependencyOrString::String(s("1"))),
            (s("bad"), DependencyOrString::Dependency(empty_dep())),
            (s("worse"), DependencyOrString::Dependency(empty_dep())),
        ],
    );
    assert_eq!(
        r,
        Err(SemanticError::MissingSource { table: TableKind::Dependencies, name: s("bad") })
    );
}

#[test]
fn empty_table_is_valid() {
    let r = IkeTomlStruct::parse_dependencies(&TableKind::Dependencies, vec![]);
    assert_eq!(r, Ok(vec![]));
}

#[test]
fn to_parsed_keeps_order_and_tasks() {
    let mut m = manifest(vec![
        (s("b"), DependencyOrString::String(s("2"))),
        (s("a"), DependencyOrString::String(s("1"))),
    ]);
    m.tasks = Some(vec![(s("build"), s("tsc"))]);
    let p = m.to_parsed().unwrap();
    assert_eq!(p.dependencies[0].0, "b");
    assert_eq!(p.dependencies[1].0, "a");
    assert_eq!(p.dependencies[1].1.source, DependencySource::Version(s("1")));
    assert!(p.dev_dependencies.is_empty());
    assert_eq!(p.tasks, vec![(s("build"), s("tsc"))]);
    assert!(p.features.is_empty());
    assert_eq!(p.package, package());
}

#[test]
fn to_parsed_rejects_bad_dev_dependency() {
    let mut m = manifest(vec![]);
    m.dev_dependencies = Some(vec![(s("t"), DependencyOrString::Dependency(empty_dep()))]);
    assert_eq!(
        m.to_parsed(),
        Err(SemanticError::MissingSource { table: TableKind::DevDependencies, name: s("t") })
    );
}

#[test]
fn feature_tables_validated() {
    let mut m = manifest(vec![]);
    m.features = Some(vec![
        (
            s("web"),
            Feature {
                dependencies: vec![(s("http"), DependencyOrString::String(s("0.3")))],
                files: vec![s("web.ts")],
                depends_on: Some(vec![s("core")]),
            },
        ),
        (
            s("core"),
            Feature { dependencies: vec![], files: vec![], depends_on: None },
        ),
    ]);
    let p = m.to_parsed().unwrap();
    assert_eq!(p.features.len(), 2);
    assert_eq!(p.features[0].0, "web");
    assert_eq!(p.features[0].1.files, vec![s("web.ts")]);
    assert_eq!(p.features[0].1.depends_on, Some(vec![s("core")]));
    assert_eq!(p.features[0].1.dependencies[0].1.source, DependencySource::Version(s("0.3")));
}

#[test]
fn feature_dependency_error_names_feature() {
    let mut m = manifest(vec![]);
    m.features = Some(vec![(
        s("web"),
        Feature {
            dependencies: vec![(s("x"), DependencyOrString::Dependency(empty_dep()))],
            files: vec![],
            depends_on: None,
        },
    )]);
    assert_eq!(
        m.to_parsed(),
        Err(SemanticError::MissingSource { table: TableKind::Feature(s("web")), name: s("x") })
    );
}

#[test]
fn from_file_passes_on_decode_errors() {
    let r = IkeToml::from_file(s("/p/ike.toml"), Err(ManifestError::Syntax(s("line 3"))));
    assert_eq!(r, Err(ManifestError::Syntax(s("line 3"))));
    let r = IkeToml::from_file(s("/p/ike.toml"), Err(ManifestError::Io(s("denied"))));
    assert_eq!(r, Err(ManifestError::Io(s("denied"))));
}

#[test]
fn from_file_wraps_semantic_errors() {
    let m = manifest(vec![(s("x"), DependencyOrString::Dependency(empty_dep()))]);
    let r = IkeToml::from_file(s("/p/ike.toml"), Ok(m));
    assert_eq!(
        r,
        Err(ManifestError::Semantic(SemanticError::MissingSource {
            table: TableKind::Dependencies,
            name: s("x"),
        }))
    );
}

#[test]
fn from_file_keeps_location() {
    let m = manifest(vec![(s("x"), DependencyOrString::String(s("1.0.0")))]);
    let r = IkeToml::from_file(s("/p/ike.toml"), Ok(m)).unwrap();
    assert_eq!(r.file_path, Some(s("/p/ike.toml")));
    assert_eq!(r.toml.dependencies[0].1.source, DependencySource::Version(s("1.0.0")));
}

#[test]
fn table_kind_copy_is_equal() {
    let k = TableKind::Feature(s("web"));
    assert_eq!(k.copy(), k);
}
