//! The analysis of one package: which declared dependencies its sources never name.
use crate::deps::{manifest_dependencies, manifest_map, normalized, DependencyMap};
use crate::manifest::{ignored_in, is_ignored_in, is_listed, PackageManifest};
use crate::metadata::{lemma_resolved_idents, metadata_dependencies, resolve_map, AnalysisError, CargoMetadata};
use crate::search::{patterns_compile, search_outcome, Search, SearchError};
use vstd::prelude::*;
use vstd::string::StringExecFns;

verus! {

/// How one dependency is reported.
#[derive(Clone, Copy, Debug, PartialEq, Eq)]
pub enum DepOutcome {
    /// Not referenced, and not ignored.
    Unused,
    /// Listed as ignored by the package, but referenced.
    IgnoredButUsed,
}

/// The ignore policy: how a dependency is reported, given whether a reference to it was found
/// and whether the package's or the workspace's ignore list holds it. Only the package's list
/// gives a warning for a dependency that is used.
pub open spec fn outcome(found: bool, package_ignored: bool, workspace_ignored: bool) -> Option<DepOutcome> {
    if !found {
        if package_ignored || workspace_ignored {
            None
        } else {
            Some(DepOutcome::Unused)
        }
    } else if package_ignored {
        Some(DepOutcome::IgnoredButUsed)
    } else {
        None
    }
}

/// Applies the ignore policy to one dependency.
pub fn classify(found: bool, package_ignored: bool, workspace_ignored: bool) -> (r: Option<DepOutcome>)
    ensures
        r == outcome(found, package_ignored, workspace_ignored),
{
    if !found {
        if package_ignored || workspace_ignored {
            None
        } else {
            Some(DepOutcome::Unused)
        }
    } else if package_ignored {
        Some(DepOutcome::IgnoredButUsed)
    } else {
        None
    }
}

/// Some file of `files` refers to the crate identifier `ident`. A file whose search fails
/// counts as not referring to it.
pub open spec fn found_in(ident: Seq<char>, files: Seq<Seq<u8>>) -> bool {
    exists|i: int| 0 <= i < files.len() && search_outcome(ident, #[trigger] files[i]) == Ok::<bool, SearchError>(true)
}

/// A file whose search failed while looking for the dependency declared under `key`; it
/// counts as not referring to it.
#[derive(Debug)]
pub struct SearchFailure {
    pub key: String,
    /// The index of the file among those searched.
    pub file: usize,
    pub error: SearchError,
}

/// `f` records a failed search of one of `files` for `ident`, declared under `key`.
pub open spec fn is_failure(f: SearchFailure, key: Seq<char>, ident: Seq<char>, files: Seq<Seq<u8>>) -> bool {
    &&& f.key@ == key
    &&& f.file < files.len()
    &&& search_outcome(ident, files[f.file as int]) == Err::<bool, SearchError>(f.error)
}

/// Whether some file refers to the crate that `search` was compiled for. The files whose search
/// fails before one refers to it are added to `failures`, under `key`; where none refers to it,
/// every failed file is added.
pub fn dependency_found(search: &Search, files: &Vec<Vec<u8>>, key: &String, failures: &mut Vec<SearchFailure>) -> (r: bool)
    requires
        search.is_compiled(),
    ensures
        r == found_in(search.ident(), files.deep_view()),
        final(failures)@.len() >= old(failures)@.len(),
        forall|n: int| 0 <= n < old(failures)@.len() ==> #[trigger] final(failures)@[n] == old(failures)@[n],
        forall|n: int| old(failures)@.len() <= n < final(failures)@.len() ==> is_failure(
            #[trigger] final(failures)@[n], key@, search.ident(), files.deep_view()),
        !r ==> forall|j: int| 0 <= j < files.len() && (#[trigger] search_outcome(search.ident(), files.deep_view()[j])) is Err
            ==> exists|n: int| old(failures)@.len() <= n < final(failures)@.len() && final(failures)@[n].file == j,
{
    let ghost start = failures@;
    let mut i: usize = 0;
    while i < files.len()
        invariant
            search.is_compiled(),
            i <= files.len(),
            forall|j: int| 0 <= j < i ==> search_outcome(search.ident(), #[trigger] files.deep_view()[j]) != Ok::<bool, SearchError>(true),
            start == old(failures)@,
            failures@.len() >= start.len(),
            forall|n: int| 0 <= n < start.len() ==> #[trigger] failures@[n] == start[n],
            forall|n: int| start.len() <= n < failures@.len() ==> is_failure(#[trigger] failures@[n], key@, search.ident(), files.deep_view()),
            forall|j: int| 0 <= j < i && (#[trigger] search_outcome(search.ident(), files.deep_view()[j])) is Err
                ==> exists|n: int| start.len() <= n < failures@.len() && failures@[n].file == j,
        decreases files.len() - i,
    {
        assert(files.deep_view()[i as int] == files[i as int]@);
        match search.search_bytes(files[i].as_slice()) {
            Ok(true) => {
                return true;
            },
            Ok(false) => {},
            Err(error) => {
                let ghost before = failures@;
                failures.push(SearchFailure { key: String::from_str(key.as_str()), file: i, error });
                proof {
                    assert(failures@[before.len() as int].file == i);
                    assert forall|j: int| 0 <= j < i + 1 && (#[trigger] search_outcome(search.ident(), files.deep_view()[j])) is Err
                        implies exists|n: int| start.len() <= n < failures@.len() && failures@[n].file == j by {
                        if j < i {
                            let n = choose|n: int| start.len() <= n < before.len() && before[n].file == j;
                            assert(failures@[n] == before[n]);
                        }
                    }
                }
            },
        }
        i = i + 1;
    }
    false
}

/// The keys reported as unused: declared, never referenced, and on neither ignore list.
pub open spec fn unused_keys(
    deps: Map<Seq<char>, Seq<char>>,
    files: Seq<Seq<u8>>,
    ignored: Seq<Seq<char>>,
    workspace_ignored: Seq<Seq<char>>,
) -> Set<Seq<char>> {
    Set::new(
        |k: Seq<char>|
            deps.contains_key(k) && outcome(found_in(deps[k], files), ignored.contains(k), workspace_ignored.contains(k))
                == Some(DepOutcome::Unused),
    )
}

/// The keys reported as ignored but used: declared, referenced, and on the package's ignore
/// list.
pub open spec fn ignored_used_keys(
    deps: Map<Seq<char>, Seq<char>>,
    files: Seq<Seq<u8>>,
    ignored: Seq<Seq<char>>,
    workspace_ignored: Seq<Seq<char>>,
) -> Set<Seq<char>> {
    Set::new(
        |k: Seq<char>|
            deps.contains_key(k) && outcome(found_in(deps[k], files), ignored.contains(k), workspace_ignored.contains(k))
                == Some(DepOutcome::IgnoredButUsed),
    )
}

/// The result of analysing one package.
#[derive(Debug)]
pub struct PackageAnalysis {
    pub package_name: String,
    /// Declared dependencies that no source file refers to, and that are not ignored.
    pub unused: Vec<String>,
    /// Dependencies on the package's ignore list that a source file refers to.
    pub ignored_used: Vec<String>,
    /// Files whose search failed, and which therefore counted as not referring to a dependency.
    pub search_failures: Vec<SearchFailure>,
}

impl PackageAnalysis {
    /// Every recorded failure is a failed search for a declared dependency, and every failed
    /// search for a dependency that no file refers to is recorded.
    pub open spec fn records_failures(&self, deps: Map<Seq<char>, Seq<char>>, files: Seq<Seq<u8>>) -> bool {
        &&& forall|n: int| 0 <= n < self.search_failures@.len() ==> {
            let f = #[trigger] self.search_failures@[n];
            deps.contains_key(f.key@) && is_failure(f, f.key@, deps[f.key@], files)
        }
        &&& forall|k: Seq<char>, j: int|
            deps.contains_key(k) && !found_in(deps[k], files) && 0 <= j < files.len() && (#[trigger] search_outcome(deps[k], files[j])) is Err
                ==> exists|n: int| 0 <= n < self.search_failures@.len() && self.search_failures@[n].key@ == k && self.search_failures@[n].file == j
    }

    /// The analysis holds exactly the keys that the ignore policy reports for `deps`, each once.
    pub open spec fn reports(
        &self,
        deps: Map<Seq<char>, Seq<char>>,
        files: Seq<Seq<u8>>,
        ignored: Seq<Seq<char>>,
        workspace_ignored: Seq<Seq<char>>,
    ) -> bool {
        &&& self.unused.deep_view().no_duplicates()
        &&& self.ignored_used.deep_view().no_duplicates()
        &&& self.unused.deep_view().to_set() == unused_keys(deps, files, ignored, workspace_ignored)
        &&& self.ignored_used.deep_view().to_set() == ignored_used_keys(deps, files, ignored, workspace_ignored)
    }
}

/// The dependency map of a package: from the resolved graph where metadata with a resolved
/// graph is given, else from the manifest's keys.
pub open spec fn dependency_map(m: PackageManifest, metadata: Option<&CargoMetadata>) -> Result<
    Map<Seq<char>, Seq<char>>,
    AnalysisError,
> {
    match metadata {
        Some(md) => match md.resolve {
            Some(res) => resolve_map(md.packages@, res),
            None => Ok(manifest_map(m.dependencies.deep_view())),
        },
        None => Ok(manifest_map(m.dependencies.deep_view())),
    }
}

fn push_key(v: &mut Vec<String>, key: &String)
    requires
        old(v).deep_view().no_duplicates(),
        !old(v).deep_view().contains(key@),
    ensures
        final(v).deep_view().no_duplicates(),
        final(v).deep_view().to_set() == old(v).deep_view().to_set().insert(key@),
{
    let ghost before = v.deep_view();
    v.push(String::from_str(key.as_str()));
    assert(v.deep_view() =~= before.push(key@));
    assert forall|x: Seq<char>| v.deep_view().contains(x) <==> (before.contains(x) || x == key@) by {
        if v.deep_view().contains(x) {
            let j = choose|j: int| 0 <= j < v.deep_view().len() && v.deep_view()[j] == x;
            if j < before.len() {
                assert(before[j] == x);
            }
        }
        if before.contains(x) {
            let j = choose|j: int| 0 <= j < before.len() && before[j] == x;
            assert(v.deep_view()[j] == x);
        }
        if x == key@ {
            assert(v.deep_view()[before.len() as int] == x);
        }
    }
    assert(v.deep_view().to_set() =~= before.to_set().insert(key@));
}

/// Searches the files for every dependency of `deps`, and reports them by the ignore policy.
pub fn analyze(
    package_name: &String,
    deps: &DependencyMap,
    files: &Vec<Vec<u8>>,
    ignored: &Vec<String>,
    workspace_ignored: &Vec<String>,
) -> (r: Result<PackageAnalysis, AnalysisError>)
    requires
        deps.wf(),
        forall|k: Seq<char>| deps@.contains_key(k) ==> !(#[trigger] deps@[k]).contains('-'),
    ensures
        r is Ok ==> r->Ok_0.package_name@ == package_name@ && r->Ok_0.reports(
            deps@,
            files.deep_view(),
            ignored.deep_view(),
            workspace_ignored.deep_view(),
        ) && r->Ok_0.records_failures(deps@, files.deep_view()),
        r is Err <==> exists|k: Seq<char>| deps@.contains_key(k) && !patterns_compile(#[trigger] deps@[k]),
        r is Err ==> r->Err_0 == AnalysisError::Pattern,
{
    let ghost fv = files.deep_view();
    let ghost iv = ignored.deep_view();
    let ghost wv = workspace_ignored.deep_view();
    let mut unused: Vec<String> = Vec::new();
    let mut ignored_used: Vec<String> = Vec::new();
    let mut failures: Vec<SearchFailure> = Vec::new();
    proof {
        deps.lemma_keys();
    }
    let mut i: usize = 0;
    while i < deps.len()
        invariant
            deps.wf(),
            forall|k: Seq<char>| deps@.contains_key(k) ==> !(#[trigger] deps@[k]).contains('-'),
            fv == files.deep_view(),
            iv == ignored.deep_view(),
            wv == workspace_ignored.deep_view(),
            i <= deps.spec_len(),
            forall|a: int| 0 <= a < deps.spec_len() ==> deps@.contains_key(#[trigger] deps.key_at(a)),
            forall|k: Seq<char>| deps@.contains_key(k) ==> exists|a: int| 0 <= a < deps.spec_len() && deps.key_at(a) == k,
            forall|a: int| 0 <= a < i ==> patterns_compile(deps@[#[trigger] deps.key_at(a)]),
            forall|n: int| 0 <= n < failures@.len() ==> {
                let f = #[trigger] failures@[n];
                deps@.contains_key(f.key@) && is_failure(f, f.key@, deps@[f.key@], fv)
            },
            forall|a: int, j: int|
                0 <= a < i && !found_in(deps@[deps.key_at(a)], fv) && 0 <= j < fv.len() && (#[trigger] search_outcome(deps@[#[trigger] deps.key_at(a)], fv[j])) is Err
                    ==> exists|n: int| 0 <= n < failures@.len() && failures@[n].key@ == deps.key_at(a) && failures@[n].file == j,
            unused.deep_view().no_duplicates(),
            ignored_used.deep_view().no_duplicates(),
            forall|x: Seq<char>| unused.deep_view().contains(x) ==> exists|a: int| 0 <= a < i && deps.key_at(a) == x,
            forall|x: Seq<char>| ignored_used.deep_view().contains(x) ==> exists|a: int| 0 <= a < i && deps.key_at(a) == x,
            forall|a: int| 0 <= a < i ==> (unused.deep_view().contains(#[trigger] deps.key_at(a)) <==> unused_keys(deps@, fv, iv, wv).contains(deps.key_at(a))),
            forall|a: int| 0 <= a < i ==> (ignored_used.deep_view().contains(#[trigger] deps.key_at(a)) <==> ignored_used_keys(deps@, fv, iv, wv).contains(deps.key_at(a))),
        decreases deps.spec_len() - i,
    {
        let dep = deps.get(i);
        let search = match Search::new(dep.ident.as_str()) {
            Ok(s) => s,
            Err(_) => {
                assert(deps@.contains_key(dep.key@) && !patterns_compile(deps@[dep.key@]));
                return Err(AnalysisError::Pattern);
            },
        };
        let ghost f0 = failures@;
        let found = dependency_found(&search, files, &dep.key, &mut failures);
        proof {
            assert forall|n: int| 0 <= n < failures@.len() implies {
                let f = #[trigger] failures@[n];
                deps@.contains_key(f.key@) && is_failure(f, f.key@, deps@[f.key@], fv)
            } by {
                if n < f0.len() {
                    assert(failures@[n] == f0[n]);
                }
            }
            assert forall|a: int, j: int|
                0 <= a < i + 1 && !found_in(deps@[deps.key_at(a)], fv) && 0 <= j < fv.len() && (#[trigger] search_outcome(deps@[#[trigger] deps.key_at(a)], fv[j])) is Err
                    implies exists|n: int| 0 <= n < failures@.len() && failures@[n].key@ == deps.key_at(a) && failures@[n].file == j by {
                if a < i {
                    let n = choose|n: int| 0 <= n < f0.len() && f0[n].key@ == deps.key_at(a) && f0[n].file == j;
                    assert(failures@[n] == f0[n]);
                } else {
                    let n = choose|n: int| f0.len() <= n < failures@.len() && failures@[n].file == j;
                    assert(is_failure(failures@[n], dep.key@, deps@[dep.key@], fv));
                }
            }
        }
        let pkg_ignored = is_listed(ignored, &dep.key);
        let ws_ignored = is_listed(workspace_ignored, &dep.key);
        let ghost k = dep.key@;
        proof {
            // Keys are distinct, so `k` is not yet in either list.
            assert forall|a: int| 0 <= a < i implies deps.key_at(a) != k by {
                deps.lemma_distinct(a, i as int);
            }
        }
        assert(!unused.deep_view().contains(k));
        assert(!ignored_used.deep_view().contains(k));
        let ghost u0 = unused.deep_view();
        let ghost g0 = ignored_used.deep_view();
        match classify(found, pkg_ignored, ws_ignored) {
            Some(DepOutcome::Unused) => push_key(&mut unused, &dep.key),
            Some(DepOutcome::IgnoredButUsed) => push_key(&mut ignored_used, &dep.key),
            None => {},
        }
        proof {
            assert forall|x: Seq<char>| unused.deep_view().contains(x) implies exists|a: int| 0 <= a < i + 1 && deps.key_at(a) == x by {
                if x != k {
                    assert(unused.deep_view().to_set().contains(x));
                    assert(u0.to_set().contains(x));
                    assert(u0.contains(x));
                } else {
                    assert(deps.key_at(i as int) == x);
                }
            }
            assert forall|x: Seq<char>| ignored_used.deep_view().contains(x) implies exists|a: int| 0 <= a < i + 1 && deps.key_at(a) == x by {
                if x != k {
                    assert(ignored_used.deep_view().to_set().contains(x));
                    assert(g0.to_set().contains(x));
                    assert(g0.contains(x));
                } else {
                    assert(deps.key_at(i as int) == x);
                }
            }
            assert forall|a: int| 0 <= a < i + 1 implies (unused.deep_view().contains(#[trigger] deps.key_at(a)) <==> unused_keys(deps@, fv, iv, wv).contains(deps.key_at(a))) by {
                let x = deps.key_at(a);
                assert(unused.deep_view().contains(x) <==> unused.deep_view().to_set().contains(x));
                assert(u0.contains(x) <==> u0.to_set().contains(x));
            }
            assert forall|a: int| 0 <= a < i + 1 implies (ignored_used.deep_view().contains(#[trigger] deps.key_at(a)) <==> ignored_used_keys(deps@, fv, iv, wv).contains(deps.key_at(a))) by {
                let x = deps.key_at(a);
                assert(ignored_used.deep_view().contains(x) <==> ignored_used.deep_view().to_set().contains(x));
                assert(g0.contains(x) <==> g0.to_set().contains(x));
            }
        }
        i = i + 1;
    }
    proof {
        assert forall|k: Seq<char>| deps@.contains_key(k) implies patterns_compile(#[trigger] deps@[k]) by {
            let a = choose|a: int| 0 <= a < deps.spec_len() && deps.key_at(a) == k;
        }
        assert(unused.deep_view().to_set() =~= unused_keys(deps@, fv, iv, wv)) by {
            assert forall|x: Seq<char>| unused_keys(deps@, fv, iv, wv).contains(x) implies unused.deep_view().contains(x) by {
                let a = choose|a: int| 0 <= a < deps.spec_len() && deps.key_at(a) == x;
            }
            assert forall|x: Seq<char>| unused.deep_view().contains(x) implies unused_keys(deps@, fv, iv, wv).contains(x) by {
                let a = choose|a: int| 0 <= a < i && deps.key_at(a) == x;
            }
        }
        assert(ignored_used.deep_view().to_set() =~= ignored_used_keys(deps@, fv, iv, wv)) by {
            assert forall|x: Seq<char>| ignored_used_keys(deps@, fv, iv, wv).contains(x) implies ignored_used.deep_view().contains(x) by {
                let a = choose|a: int| 0 <= a < deps.spec_len() && deps.key_at(a) == x;
            }
            assert forall|x: Seq<char>| ignored_used.deep_view().contains(x) implies ignored_used_keys(deps@, fv, iv, wv).contains(x) by {
                let a = choose|a: int| 0 <= a < i && deps.key_at(a) == x;
            }
        }
    }
    proof {
        assert forall|k: Seq<char>, j: int|
            deps@.contains_key(k) && !found_in(deps@[k], fv) && 0 <= j < fv.len() && (#[trigger] search_outcome(deps@[k], fv[j])) is Err
                implies exists|n: int| 0 <= n < failures@.len() && failures@[n].key@ == k && failures@[n].file == j by {
            let a = choose|a: int| 0 <= a < deps.spec_len() && deps.key_at(a) == k;
            assert(search_outcome(deps@[deps.key_at(a)], fv[j]) is Err);
        }
    }
    Ok(PackageAnalysis {
        package_name: String::from_str(package_name.as_str()),
        unused,
        ignored_used,
        search_failures: failures,
    })
}

/// No identifier that manifest-only mode gives holds a `-`.
pub proof fn lemma_manifest_idents(keys: Seq<Seq<char>>)
    ensures
        forall|k: Seq<char>| #[trigger] manifest_map(keys).contains_key(k) ==> !manifest_map(keys)[k].contains('-'),
{
    assert forall|k: Seq<char>| #[trigger] manifest_map(keys).contains_key(k) implies !manifest_map(keys)[k].contains('-') by {
        let n = normalized(k);
        if n.contains('-') {
            let i = choose|i: int| 0 <= i < n.len() && n[i] == '-';
            assert(n[i] == crate::deps::underscore(k[i]));
        }
    }
}

/// Analyses one package: its manifest, the build tool's metadata in metadata-assisted mode
/// (`None` in manifest-only mode), the workspace's ignore list, and the contents of its source
/// files. `Ok(None)` for a manifest without a package.
pub fn find_unused(
    manifest: &PackageManifest,
    metadata: Option<&CargoMetadata>,
    workspace_ignored: &Vec<String>,
    files: &Vec<Vec<u8>>,
) -> (r: Result<Option<PackageAnalysis>, AnalysisError>)
    ensures
        manifest.package_name is None ==> r is Ok && r->Ok_0 is None,
        manifest.package_name is Some ==> match dependency_map(*manifest, metadata) {
            Err(e) => r == Err::<Option<PackageAnalysis>, AnalysisError>(e),
            Ok(deps) => {
                &&& r is Err <==> exists|k: Seq<char>| deps.contains_key(k) && !patterns_compile(#[trigger] deps[k])
                &&& r is Err ==> r->Err_0 == AnalysisError::Pattern
                &&& r is Ok ==> r->Ok_0 is Some && r->Ok_0->Some_0.package_name@
                    == manifest.package_name->Some_0@ && r->Ok_0->Some_0.reports(
                    deps,
                    files.deep_view(),
                    ignored_in(manifest.metadata),
                    workspace_ignored.deep_view(),
                ) && r->Ok_0->Some_0.records_failures(deps, files.deep_view())
            },
        },
{
    let name = match &manifest.package_name {
        Some(n) => n,
        None => return Ok(None),
    };
    let deps = match metadata {
        Some(md) => match &md.resolve {
            Some(res) => {
                proof {
                    lemma_resolved_idents(md.packages@, *res);
                }
                match metadata_dependencies(md, res) {
                    Ok(d) => d,
                    Err(e) => return Err(e),
                }
            },
            None => manifest_dependencies(&manifest.dependencies),
        },
        None => manifest_dependencies(&manifest.dependencies),
    };
    proof {
        lemma_manifest_idents(manifest.dependencies.deep_view());
    }
    let empty: Vec<String> = Vec::new();
    let ignored = match &manifest.metadata {
        Some(md) => match &md.cargo_machete {
            Some(f) => &f.ignored,
            None => &empty,
        },
        None => &empty,
    };
    assert(ignored.deep_view() =~= ignored_in(manifest.metadata));
    let res = analyze(name, &deps, files, ignored, workspace_ignored);
    proof {
        let m = dependency_map(*manifest, metadata)->Ok_0;
        assert(deps@ == m);
        if res is Err {
            let k = choose|k: Seq<char>| deps@.contains_key(k) && !patterns_compile(#[trigger] deps@[k]);
            assert(m.contains_key(k) && !patterns_compile(m[k]));
        }
        if exists|k: Seq<char>| m.contains_key(k) && !patterns_compile(#[trigger] m[k]) {
            let k = choose|k: Seq<char>| m.contains_key(k) && !patterns_compile(#[trigger] m[k]);
            assert(deps@.contains_key(k) && !patterns_compile(deps@[k]));
        }
    }
    match res {
        Ok(a) => Ok(Some(a)),
        Err(e) => Err(e),
    }
}

} // verus!
