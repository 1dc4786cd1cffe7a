use cargo_machete::analysis::{classify, find_unused, DepOutcome, PackageAnalysis};
use cargo_machete::manifest::{MetadataFields, PackageManifest, PackageMetadata};
use cargo_machete::metadata::{
    AnalysisError, CargoMetadata, DependencySpec, MetadataPackage, NodeDep, Resolve, ResolveNode,
};

fn strings(v: &[&str]) -> Vec<String> {
    v.iter().map(|s| s.to_string()).collect()
}

fn manifest(name: &str, deps: &[&str], ignored: Option<&[&str]>) -> PackageManifest {
    PackageManifest {
        package_name: Some(name.to_string()),
        dependencies: strings(deps),
        metadata: ignored.map(|list| PackageMetadata {
            cargo_machete: Some(MetadataFields { ignored: strings(list) }),
        }),
        lib_path: None,
        product_paths: Vec::new(),
    }
}

/// Metadata for a root package whose dependency lines are `(key, package, extern name)`.
fn metadata(root: &str, lines: &[(&str, &str, &str)]) -> CargoMetadata {
    let root_id = format!("{root} 0.1.0");
    let mut packages = vec![MetadataPackage {
        id: root_id.clone(),
        name: root.to_string(),
        dependencies: lines
            .iter()
            .map(|(key, pkg, _)| DependencySpec {
                name: pkg.to_string(),
                rename: if key == pkg { None } else { Some(key.to_string()) },
            })
            .collect(),
    }];
    for (_, pkg, _) in lines {
        packages.push(MetadataPackage {
            id: format!("{pkg} 1.0.0"),
            name: pkg.to_string(),
            dependencies: Vec::new(),
        });
    }
    let deps = lines
        .iter()
        .map(|(_, pkg, ext)| NodeDep { name: ext.to_string(), pkg: format!("{pkg} 1.0.0") })
        .collect();
    CargoMetadata {
        packages,
        resolve: Some(Resolve {
            nodes: vec![ResolveNode { id: root_id.clone(), deps }],
            root: Some(root_id),
        }),
    }
}

fn files(contents: &[&str]) -> Vec<Vec<u8>> {
    contents.iter().map(|c| c.as_bytes().to_vec()).collect()
}

fn run(
    m: &PackageManifest,
    md: Option<&CargoMetadata>,
    ws: &[&str],
    sources: &[&str],
) -> PackageAnalysis {
    find_unused(m, md, &strings(ws), &files(sources))
        .expect("analysis succeeds")
        .expect("the manifest has a package")
}

/// Runs the analysis in both modes and hands each result to `check`.
fn check_analysis<F: Fn(PackageAnalysis)>(
    m: &PackageManifest,
    md: &CargoMetadata,
    ws: &[&str],
    sources: &[&str],
    check: F,
) {
    check(run(m, Some(md), ws, sources));
    check(run(m, None, ws, sources));
}

#[test]
fn test_just_unused() {
    let m = manifest("just-unused", &["log"], None);
    let md = metadata("just-unused", &[("log", "log", "log")]);
    check_analysis(&m, &md, &[], &["fn main() {}\n"], |analysis| {
        assert_eq!(analysis.unused, &["log".to_string()]);
    });
}

#[test]
fn test_just_unused_with_manifest() {
    let m = manifest("program", &["log"], None);
    let md = metadata("program", &[("log", "log", "log")]);
    check_analysis(&m, &md, &[], &["fn main() {\n    println!(\"hi\");\n}\n"], |analysis| {
        assert_eq!(analysis.unused, &["log".to_string()]);
    });
}

#[test]
fn test_unused_transitive() {
    let lib1 = manifest("lib1", &[], None);
    let md1 = metadata("lib1", &[]);
    check_analysis(&lib1, &md1, &[], &["pub fn f() {}\n"], |analysis| {
        assert!(analysis.unused.is_empty());
    });

    let lib2 = manifest("lib2", &["lib1"], None);
    let md2 = metadata("lib2", &[("lib1", "lib1", "lib1")]);
    check_analysis(&lib2, &md2, &[], &["pub use lib1::f;\n"], |analysis| {
        assert!(analysis.unused.is_empty());
    });

    let top = manifest("unused-transitive", &["lib1", "lib2"], None);
    let md3 = metadata("unused-transitive", &[("lib1", "lib1", "lib1"), ("lib2", "lib2", "lib2")]);
    check_analysis(&top, &md3, &[], &["fn main() {\n    lib2::f();\n}\n"], |analysis| {
        assert_eq!(analysis.unused, &["lib1".to_string()]);
    });
}

#[test]
fn test_false_positive_macro_use() {
    let m = manifest("false-positive-log", &["log"], None);
    let md = metadata("false-positive-log", &[("log", "log", "log")]);
    let source = "#[macro_use]\nextern crate other_logger;\n\nfn main() {\n    info!(\"x\");\n}\n";
    check_analysis(&m, &md, &[], &[source], |analysis| {
        assert_eq!(analysis.unused, &["log".to_string()]);
    });
}

#[test]
fn test_with_bench() {
    let m = manifest("bench", &["bencher", "sortlib"], None);
    let md = metadata("bench", &[("bencher", "bencher", "bencher"), ("sortlib", "sortlib", "sortlib")]);
    let source = "#[macro_use]\nextern crate bencher;\n\nuse bencher::Bencher;\n\nfn func(bench: &mut Bencher) {\n    sortlib::sort_array(&mut a);\n}\n";
    check_analysis(&m, &md, &[], &[source], |analysis| {
        assert!(analysis.unused.is_empty());
    });
}

#[test]
fn test_crate_renaming_works() {
    let m = manifest("renaming-works", &["xml-rs"], None);
    let md = metadata("renaming-works", &[("xml-rs", "xml-rs", "xml")]);
    let source = "use xml::reader::EventReader;\nfn main() {}\n";
    let analysis = run(&m, Some(&md), &[], &[source]);
    assert!(analysis.unused.is_empty());

    let analysis = run(&m, None, &[], &[source]);
    assert_eq!(analysis.unused, &["xml-rs".to_string()]);
}

#[test]
fn test_unused_renamed_in_registry() {
    let m = manifest("unused-renamed-in-registry", &["xml-rs"], None);
    let md = metadata("unused-renamed-in-registry", &[("xml-rs", "xml-rs", "xml")]);
    let analysis = run(&m, Some(&md), &[], &["fn main() {}\n"]);
    assert_eq!(analysis.unused, &["xml-rs".to_string()]);
}

#[test]
fn test_unused_renamed_in_spec() {
    let m = manifest("unused-renamed-in-spec", &["tracing"], None);
    let md = metadata("unused-renamed-in-spec", &[("tracing", "log", "tracing")]);
    let analysis = run(&m, Some(&md), &[], &["fn main() {\n    log::info!(\"x\");\n}\n"]);
    assert_eq!(analysis.unused, &["tracing".to_string()]);
}

#[test]
fn test_unused_kebab_spec() {
    let m = manifest("unused-kebab-spec", &["log-once"], None);
    let md = metadata("unused-kebab-spec", &[("log-once", "log-once", "log_once")]);
    let analysis = run(&m, Some(&md), &[], &["fn main() {}\n"]);
    assert_eq!(analysis.unused, &["log-once".to_string()]);
}

#[test]
fn test_ignore_deps_works() {
    let m = manifest("ignored-dep", &["rand", "rand_core"], Some(&["rand_core"]));
    let md = metadata("ignored-dep", &[("rand", "rand", "rand"), ("rand_core", "rand_core", "rand_core")]);
    check_analysis(&m, &md, &[], &["use rand_core::RngCore;\n"], |analysis| {
        assert_eq!(analysis.unused, &["rand".to_string()]);
        assert_eq!(analysis.ignored_used, &["rand_core".to_string()]);
    });
}

#[test]
fn test_ignore_deps_workspace_works() {
    let m = manifest("inner", &["rand", "rand_core"], Some(&["rand_core"]));
    let md = metadata("inner", &[("rand", "rand", "rand"), ("rand_core", "rand_core", "rand_core")]);
    check_analysis(&m, &md, &["rand_core"], &["use rand_core::RngCore;\n"], |analysis| {
        assert_eq!(analysis.unused, &["rand".to_string()]);
        assert_eq!(analysis.ignored_used, &["rand_core".to_string()]);
    });
}

#[test]
fn used_via_path() {
    let m = manifest("p", &["log"], None);
    let md = metadata("p", &[("log", "log", "log")]);
    check_analysis(&m, &md, &[], &["fn main() { log::info!(); }\n"], |analysis| {
        assert!(analysis.unused.is_empty());
    });
}

#[test]
fn renamed_in_spec_both_modes() {
    let m = manifest("p", &["tracing"], None);
    let md = metadata("p", &[("tracing", "log", "tracing")]);
    let with_meta = run(&m, Some(&md), &[], &["log::info!();\n"]);
    assert_eq!(with_meta.unused, &["tracing".to_string()]);
    let without = run(&m, None, &[], &["log::info!();\n"]);
    assert_eq!(without.unused, &["tracing".to_string()]);
}

#[test]
fn kebab_declared_is_used() {
    let m = manifest("p", &["log-once"], None);
    let md = metadata("p", &[("log-once", "log-once", "log_once")]);
    check_analysis(&m, &md, &[], &["use log_once::warn_once;\n"], |analysis| {
        assert!(analysis.unused.is_empty());
    });
}

#[test]
fn ignored_dep_suppressed() {
    let m = manifest("p", &["rand", "rand_core"], Some(&["rand", "rand_core"]));
    let md = metadata("p", &[("rand", "rand", "rand"), ("rand_core", "rand_core", "rand_core")]);
    check_analysis(&m, &md, &[], &["use rand_core::RngCore;\n"], |analysis| {
        assert!(analysis.unused.is_empty());
        assert_eq!(analysis.ignored_used, &["rand_core".to_string()]);
    });
}

#[test]
fn workspace_ignored_never_warns() {
    let m = manifest("member", &["rand", "rand_core"], None);
    let md = metadata("member", &[("rand", "rand", "rand"), ("rand_core", "rand_core", "rand_core")]);
    check_analysis(&m, &md, &["rand_core"], &["use rand_core::RngCore;\n"], |analysis| {
        assert_eq!(analysis.unused, &["rand".to_string()]);
        assert!(analysis.ignored_used.is_empty());
    });
}

#[test]
fn reports_are_declared_and_disjoint() {
    let m = manifest("p", &["a", "b", "c", "d"], Some(&["b", "c", "x"]));
    let analysis = run(&m, None, &["d"], &["use b;\n", "fn f() { a::g(); }\n"]);
    assert!(analysis.unused.is_empty());
    assert_eq!(analysis.ignored_used, &["b".to_string()]);
    let m = manifest("p", &["a", "b", "c"], None);
    let first = run(&m, None, &[], &["use b;\n"]);
    let second = run(&m, None, &[], &["use b;\n"]);
    assert_eq!(first.unused, second.unused);
    assert_eq!(first.unused, &["a".to_string(), "c".to_string()]);
    for k in &first.unused {
        assert!(!first.ignored_used.contains(k));
    }
}

#[test]
fn workspace_manifest_has_no_package() {
    let mut m = manifest("p", &["log"], None);
    m.package_name = None;
    assert!(find_unused(&m, None, &Vec::new(), &Vec::new()).unwrap().is_none());
}

#[test]
fn metadata_without_root_gives_no_dependencies() {
    let m = manifest("p", &["log"], None);
    let md = CargoMetadata {
        packages: Vec::new(),
        resolve: Some(Resolve { nodes: Vec::new(), root: None }),
    };
    let analysis = run(&m, Some(&md), &[], &["fn main() {}\n"]);
    assert!(analysis.unused.is_empty());
    let md = CargoMetadata { packages: Vec::new(), resolve: None };
    let analysis = run(&m, Some(&md), &[], &["fn main() {}\n"]);
    assert_eq!(analysis.unused, &["log".to_string()]);
}

#[test]
fn metadata_errors() {
    let m = manifest("p", &["log"], None);
    let good = metadata("p", &[("log", "log", "log")]);

    let mut md = metadata("p", &[("log", "log", "log")]);
    md.resolve.as_mut().unwrap().nodes.clear();
    assert_eq!(find_unused(&m, Some(&md), &Vec::new(), &Vec::new()).err(), Some(AnalysisError::RootNodeMissing));

    let mut md = metadata("p", &[("log", "log", "log")]);
    md.packages.remove(0);
    assert_eq!(find_unused(&m, Some(&md), &Vec::new(), &Vec::new()).err(), Some(AnalysisError::RootPackageMissing));

    let mut md = metadata("p", &[("log", "log", "log")]);
    md.packages.truncate(1);
    assert_eq!(find_unused(&m, Some(&md), &Vec::new(), &Vec::new()).err(), Some(AnalysisError::PackageMissing));

    let mut md = metadata("p", &[("log", "log", "log")]);
    md.packages[0].dependencies.clear();
    assert_eq!(find_unused(&m, Some(&md), &Vec::new(), &Vec::new()).err(), Some(AnalysisError::DependencySpecMissing));

    let md = metadata("p", &[("log", "log", "lo-g")]);
    assert_eq!(find_unused(&m, Some(&md), &Vec::new(), &Vec::new()).err(), Some(AnalysisError::InvalidIdent));

    assert!(find_unused(&m, Some(&good), &Vec::new(), &Vec::new()).is_ok());
}

#[test]
fn ignore_policy_table() {
    assert_eq!(classify(false, false, false), Some(DepOutcome::Unused));
    assert_eq!(classify(false, true, false), None);
    assert_eq!(classify(false, false, true), None);
    assert_eq!(classify(true, false, false), None);
    assert_eq!(classify(true, true, false), Some(DepOutcome::IgnoredButUsed));
    assert_eq!(classify(true, false, true), None);
    assert_eq!(classify(true, true, true), Some(DepOutcome::IgnoredButUsed));
}

#[test]
fn failed_searches_are_recorded() {
    let m = manifest("p", &["log", "serde"], None);
    let sources = ["use log; \u{0}".as_bytes().to_vec(), b"use serde; \xff\n".to_vec(), b"fn f() {}\n".to_vec()];
    let analysis = find_unused(&m, None, &Vec::new(), &sources.to_vec()).unwrap().unwrap();
    assert_eq!(analysis.unused, &["log".to_string(), "serde".to_string()]);
    assert_eq!(analysis.search_failures.len(), 1);
    assert_eq!(analysis.search_failures[0].key, "serde");
    assert_eq!(analysis.search_failures[0].file, 1);
    assert_eq!(analysis.search_failures[0].error, cargo_machete::search::SearchError::NotUtf8);
}
