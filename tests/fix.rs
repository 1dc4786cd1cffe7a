use cargo_machete::fix::{
    get_dependency_tables, is_dependency_table, not_found_message, remove_dependencies, FixError,
};
use std::str::FromStr;

const MULTI_KEY_DEP: &str = r#"[package]
name = "multi-key-dep"
version = "0.1.0"
edition = "2021"

[dependencies]
log = "0.4.14"
log-once = "0.4.0"

[target.'cfg(unix)'.dependencies]
rand = "0.8.5"

[dev-dependencies]
rand = "0.8.5"

[build-dependencies]
cc = "1.0"
"#;

#[test]
fn test_remove_dependencies() {
    let stripped_manifest = remove_dependencies(
        MULTI_KEY_DEP,
        &["cc".to_string(), "log-once".to_string(), "rand".to_string()],
    )
    .unwrap();
    assert_eq!(
        stripped_manifest,
        r#"[package]
name = "multi-key-dep"
version = "0.1.0"
edition = "2021"

[dependencies]
log = "0.4.14"

[target.'cfg(unix)'.dependencies]

[dev-dependencies]

[build-dependencies]
"#
    );
}

#[test]
fn removal_of_absent_dependency_fails() {
    match remove_dependencies(MULTI_KEY_DEP, &["serde".to_string()]) {
        Err(FixError::NotFound { dep, tables }) => {
            assert_eq!(dep, "serde");
            assert_eq!(
                tables,
                vec!["dependencies", "dependencies", "dev-dependencies", "build-dependencies"]
            );
            assert_eq!(
                not_found_message(&dep, &tables),
                "serde not found in tables:\n\tdependencies, dependencies, dev-dependencies, build-dependencies"
            );
        }
        other => panic!("unexpected result: {other:?}"),
    }
}

#[test]
fn removing_twice_fails() {
    let result = remove_dependencies(MULTI_KEY_DEP, &["cc".to_string(), "cc".to_string()]);
    assert!(matches!(result, Err(FixError::NotFound { ref dep, .. }) if dep == "cc"));
}

#[test]
fn dependency_table_that_is_not_a_table() {
    let result = remove_dependencies("dependencies = 3\n", &["cc".to_string()]);
    assert!(matches!(result, Err(FixError::NotATable(ref k)) if k == "dependencies"));
    let result = remove_dependencies("target = 3\n", &["cc".to_string()]);
    assert!(matches!(result, Err(FixError::NotATable(ref k)) if k == "target"));
}

#[test]
fn invalid_manifest() {
    assert!(matches!(remove_dependencies("[package", &[]), Err(FixError::Parse)));
}

#[test]
fn inline_and_platform_tables() {
    let text = "[dependencies]\na = \"1\"\nb = { version = \"2\" }\n\n[target.x86_64-pc-windows-msvc.dependencies]\nb = \"2\"\n";
    let out = remove_dependencies(text, &["b".to_string()]).unwrap();
    assert_eq!(out, "[dependencies]\na = \"1\"\n\n[target.x86_64-pc-windows-msvc.dependencies]\n");
}

#[test]
fn table_names() {
    assert!(is_dependency_table("dependencies"));
    assert!(is_dependency_table("dev-dependencies"));
    assert!(is_dependency_table("build-dependencies"));
    assert!(!is_dependency_table("dependency"));
}

#[test]
fn dependency_table_paths() {
    let doc = toml_edit::DocumentMut::from_str(MULTI_KEY_DEP).unwrap();
    let paths = get_dependency_tables(&doc).unwrap();
    assert_eq!(
        paths,
        vec![
            vec!["dependencies".to_string()],
            vec!["target".to_string(), "cfg(unix)".to_string(), "dependencies".to_string()],
            vec!["dev-dependencies".to_string()],
            vec!["build-dependencies".to_string()],
        ]
    );
}

#[test]
fn empty_removal_keeps_text() {
    assert_eq!(remove_dependencies(MULTI_KEY_DEP, &[]).unwrap(), MULTI_KEY_DEP);
}
