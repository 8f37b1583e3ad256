use ike::features::feature_closure;
use ike::manifest::{ParsedFeature, SemanticError};

fn feat(name: &str, deps: Option<Vec<&str>>) -> (String, ParsedFeature) {
    (
        name.to_string(),
        ParsedFeature {
            dependencies: vec![],
            files: vec![],
            depends_on: deps.map(|d| d.into_iter().map(|x| x.to_string()).collect()),
        },
    )
}

fn sorted(mut v: Vec<String>) -> Vec<String> {
    v.sort();
    v
}

#[test]
fn mutual_dependency_is_a_cycle() {
    let fs = vec![feat("A", Some(vec!["B"])), feat("B", Some(vec!["A"]))];
    assert_eq!(feature_closure(&fs, &vec!["A".to_string()]), Err(SemanticError::FeatureCycle));
}

#[test]
fn self_dependency_is_a_cycle() {
    let fs = vec![feat("A", Some(vec!["A"]))];
    assert_eq!(feature_closure(&fs, &vec!["A".to_string()]), Err(SemanticError::FeatureCycle));
}

#[test]
fn closure_is_transitive() {
    let fs = vec![
        feat("web", Some(vec!["net", "core"])),
        feat("net", Some(vec!["core"])),
        feat("core", None),
        feat("unused", None),
    ];
    let r = feature_closure(&fs, &vec!["web".to_string()]).unwrap();
    assert_eq!(sorted(r), vec!["core".to_string(), "net".to_string(), "web".to_string()]);
}

#[test]
fn undefined_feature_rejected() {
    let fs = vec![feat("a", Some(vec!["ghost"]))];
    assert_eq!(
        feature_closure(&fs, &vec!["a".to_string()]),
        Err(SemanticError::UndefinedFeature { name: "ghost".to_string() })
    );
}

#[test]
fn undefined_selection_rejected() {
    let fs: Vec<(String, ParsedFeature)> = vec![];
    assert_eq!(
        feature_closure(&fs, &vec!["nope".to_string()]),
        Err(SemanticError::UndefinedFeature { name: "nope".to_string() })
    );
}

#[test]
fn empty_selection_is_empty() {
    let fs = vec![feat("a", None)];
    assert_eq!(feature_closure(&fs, &vec![]), Ok(vec![]));
}

#[test]
fn duplicate_selection_listed_once() {
    let fs = vec![feat("a", None)];
    assert_eq!(
        feature_closure(&fs, &vec!["a".to_string(), "a".to_string()]),
        Ok(vec!["a".to_string()])
    );
}

#[test]
fn diamond_is_not_a_cycle() {
    let fs = vec![
        feat("top", Some(vec!["l", "r"])),
        feat("l", Some(vec!["base"])),
        feat("r", Some(vec!["base"])),
        feat("base", None),
    ];
    let r = feature_closure(&fs, &vec!["top".to_string()]).unwrap();
    assert_eq!(r.len(), 4);
}
