use cargo_machete::cli::{exit_code, is_manifest_file_name, running_as_cargo_cmd};
use cargo_machete::deps::{manifest_dependencies, DependencyMap};
use cargo_machete::manifest::{check_source_paths, is_source_path, source_roots, PackageManifest};
use cargo_machete::sample::create_data;

fn layout(lib: Option<&str>, products: &[Option<&str>]) -> PackageManifest {
    PackageManifest {
        package_name: Some("p".to_string()),
        dependencies: Vec::new(),
        metadata: None,
        lib_path: lib.map(|s| s.to_string()),
        product_paths: products.iter().map(|p| p.map(|s| s.to_string())).collect(),
    }
}

#[test]
fn default_source_root() {
    assert_eq!(source_roots(&layout(None, &[None, None])), vec!["src".to_string()]);
}

#[test]
fn declared_source_roots() {
    let mut roots = source_roots(&layout(
        Some("src/lib.rs"),
        &[Some("src/bin/tool.rs"), None, Some("benches/b.rs"), Some("src/main.rs")],
    ));
    roots.sort();
    assert_eq!(roots, vec!["benches".to_string(), "src".to_string(), "src/bin".to_string()]);
}

#[test]
fn source_extension() {
    assert!(is_source_path("src/main.rs"));
    assert!(!is_source_path("src/main.rs.bak"));
    assert!(!is_source_path("README"));
    assert!(!is_source_path("src/.rs"));
}

#[test]
fn kebab_keys_are_normalized() {
    let keys = vec!["log-once".to_string(), "serde".to_string(), "log-once".to_string()];
    let map = manifest_dependencies(&keys);
    assert_eq!(map.len(), 2);
    assert_eq!(map.get(0).key, "log-once");
    assert_eq!(map.get(0).ident, "log_once");
    assert_eq!(map.get(1).ident, "serde");
}

#[test]
fn map_insert_replaces() {
    let mut map = DependencyMap::new();
    map.insert("a".to_string(), "x".to_string());
    map.insert("b".to_string(), "y".to_string());
    map.insert("a".to_string(), "z".to_string());
    assert_eq!(map.len(), 2);
    assert_eq!(map.get(0).ident, "z");
}

#[test]
fn cargo_subcommand_detection() {
    assert!(running_as_cargo_cmd(true, false));
    assert!(!running_as_cargo_cmd(true, true));
    assert!(!running_as_cargo_cmd(false, false));
}

#[test]
fn exit_codes() {
    assert_eq!(exit_code(false, false), 0);
    assert_eq!(exit_code(false, true), 1);
    assert_eq!(exit_code(true, true), 2);
}

#[test]
fn manifest_file_names() {
    assert!(is_manifest_file_name("Cargo.toml"));
    assert!(!is_manifest_file_name("cargo.toml"));
}

#[test]
fn sample_data() {
    let d = create_data();
    assert_eq!(d.name, "test");
    assert_eq!(d.value, 42);
}

#[test]
fn declared_paths_must_be_sources() {
    assert!(check_source_paths(&layout(Some("src/lib.rs"), &[Some("src/main.rs"), None])));
    assert!(!check_source_paths(&layout(Some("src/lib"), &[])));
    assert!(!check_source_paths(&layout(None, &[Some("rs")])));
}
