//! What the library reads of a package manifest, and the source roots it declares.
use vstd::prelude::*;
use vstd::string::{StrSliceExecFns, StringExecFns};

verus! {

/// The fields of the tool's own section under a manifest's `metadata` table.
#[derive(Debug)]
pub struct MetadataFields {
    /// Dependencies that are not to be reported as unused.
    pub ignored: Vec<String>,
}

/// A manifest's `metadata` table, as far as this tool reads it.
#[derive(Debug)]
pub struct PackageMetadata {
    /// The section `cargo-machete`.
    pub cargo_machete: Option<MetadataFields>,
}

/// A package manifest, as far as the analysis reads it, with workspace fields inherited.
#[derive(Debug)]
pub struct PackageManifest {
    /// The package's name; `None` for a manifest that only declares a workspace.
    pub package_name: Option<String>,
    /// The keys of the runtime dependency table.
    pub dependencies: Vec<String>,
    /// The package's `metadata` table.
    pub metadata: Option<PackageMetadata>,
    /// The path of the library target's root file, if declared.
    pub lib_path: Option<String>,
    /// The declared root-file paths of the binary, bench, test and example targets.
    pub product_paths: Vec<Option<String>>,
}

/// The ignore list that a `metadata` table holds; empty where it holds none.
pub open spec fn ignored_in(metadata: Option<PackageMetadata>) -> Seq<Seq<char>> {
    match metadata {
        Some(md) => match md.cargo_machete {
            Some(f) => f.ignored.deep_view(),
            None => Seq::empty(),
        },
        None => Seq::empty(),
    }
}

/// Whether `list` holds `key`.
pub fn is_listed(list: &Vec<String>, key: &String) -> (r: bool)
    ensures
        r == list.deep_view().contains(key@),
{
    let mut i: usize = 0;
    while i < list.len()
        invariant
            i <= list.len(),
            forall|j: int| 0 <= j < i ==> list.deep_view()[j] != key@,
        decreases list.len() - i,
    {
        if list[i] == *key {
            assert(list.deep_view()[i as int] == key@);
            return true;
        }
        i = i + 1;
    }
    false
}

/// Whether the ignore list of `metadata` holds `key`.
pub fn is_ignored_in(metadata: &Option<PackageMetadata>, key: &String) -> (r: bool)
    ensures
        r == ignored_in(*metadata).contains(key@),
{
    match metadata {
        Some(md) => match &md.cargo_machete {
            Some(f) => is_listed(&f.ignored, key),
            None => false,
        },
        None => false,
    }
}

/// The directory that holds `path`: the path without its last component.
pub uninterp spec fn parent_dir(path: Seq<char>) -> Seq<char>;

/// The extension of the last component of `path`, if it has one.
pub uninterp spec fn path_extension(path: Seq<char>) -> Option<Seq<char>>;

/// Relies on `PathBuf::pop`, which truncates a path to its parent.
#[verifier::external_body]
fn parent_path(path: &str) -> (r: String)
    ensures
        r@ == parent_dir(path@),
{
    let mut buf = std::path::PathBuf::from(path);
    buf.pop();
    buf.to_string_lossy().into_owned()
}

/// Relies on `Path::extension`, which gives what follows the last `.` of the file name.
#[verifier::external_body]
fn extension_of(path: &str) -> (r: Option<String>)
    ensures
        r.deep_view() == path_extension(path@),
{
    std::path::Path::new(path).extension().map(|e| e.to_string_lossy().into_owned())
}

/// Whether `path` names a Rust source file by its extension.
pub fn is_source_path(path: &str) -> (r: bool)
    ensures
        r == (path_extension(path@) == Some("rs"@)),
{
    match extension_of(path) {
        Some(ext) => ext == String::from_str("rs"),
        None => false,
    }
}

/// `path` names a file with the Rust source extension.
pub open spec fn ends_with_rs(path: Seq<char>) -> bool {
    path.len() >= 3 && path.subrange(path.len() - 3, path.len() as int) == ".rs"@
}

/// Every target path that the manifest declares names a Rust source file.
pub open spec fn declares_source_paths(m: PackageManifest) -> bool {
    &&& m.lib_path is Some ==> ends_with_rs(m.lib_path->Some_0@)
    &&& forall|i: int|
        0 <= i < m.product_paths@.len() && #[trigger] m.product_paths@[i] is Some ==> ends_with_rs(
            m.product_paths@[i]->Some_0@,
        )
}

/// Whether `path` ends with `.rs`.
pub fn is_rs_path(path: &str) -> (r: bool)
    ensures
        r == ends_with_rs(path@),
{
    proof {
        reveal_strlit(".rs");
    }
    let n = path.unicode_len();
    if n < 3 {
        return false;
    }
    let a = path.get_char(n - 3);
    let b = path.get_char(n - 2);
    let c = path.get_char(n - 1);
    let ghost tail = path@.subrange(n - 3, n as int);
    assert(tail[0] == a && tail[1] == b && tail[2] == c);
    assert(".rs"@[0] == '.' && ".rs"@[1] == 'r' && ".rs"@[2] == 's' && ".rs"@.len() == 3);
    if a == '.' && b == 'r' && c == 's' {
        assert(tail =~= ".rs"@);
        true
    } else {
        false
    }
}

/// Whether every target path that the manifest declares names a Rust source file.
pub fn check_source_paths(m: &PackageManifest) -> (r: bool)
    ensures
        r == declares_source_paths(*m),
{
    match &m.lib_path {
        Some(p) => {
            if !is_rs_path(p.as_str()) {
                return false;
            }
        },
        None => {},
    }
    let mut i: usize = 0;
    while i < m.product_paths.len()
        invariant
            i <= m.product_paths@.len(),
            m.lib_path is Some ==> ends_with_rs(m.lib_path->Some_0@),
            forall|j: int|
                0 <= j < i && #[trigger] m.product_paths@[j] is Some ==> ends_with_rs(m.product_paths@[j]->Some_0@),
        decreases m.product_paths@.len() - i,
    {
        match &m.product_paths[i] {
            Some(p) => {
                if !is_rs_path(p.as_str()) {
                    return false;
                }
            },
            None => {},
        }
        i = i + 1;
    }
    true
}

/// The product path at `i` is declared, and `r` is its parent.
pub open spec fn product_root(m: PackageManifest, i: int, r: Seq<char>) -> bool {
    m.product_paths@[i] is Some && r == parent_dir(m.product_paths@[i]->Some_0@)
}

/// The parents of the library path and of the first `n` product paths.
pub open spec fn roots_upto(m: PackageManifest, n: int) -> Set<Seq<char>> {
    Set::new(
        |r: Seq<char>|
            (m.lib_path is Some && r == parent_dir(m.lib_path->Some_0@)) || exists|i: int|
                0 <= i < n && #[trigger] product_root(m, i, r),
    )
}

/// The parents of the target paths that the manifest declares.
pub open spec fn declared_roots(m: PackageManifest) -> Set<Seq<char>> {
    roots_upto(m, m.product_paths@.len() as int)
}

/// The source roots of a package: the declared ones, or `src` where none is declared.
pub open spec fn source_root_set(m: PackageManifest) -> Set<Seq<char>> {
    if declared_roots(m).is_empty() {
        set!["src"@]
    } else {
        declared_roots(m)
    }
}

fn push_new(roots: &mut Vec<String>, root: String)
    requires
        old(roots).deep_view().no_duplicates(),
    ensures
        final(roots).deep_view().no_duplicates(),
        final(roots).deep_view().to_set() == old(roots).deep_view().to_set().insert(root@),
{
    let ghost before = roots.deep_view();
    if !is_listed(roots, &root) {
        roots.push(root);
        assert(roots.deep_view() =~= before.push(root@));
        assert(roots.deep_view().to_set() =~= before.to_set().insert(root@)) by {
            assert forall|x: Seq<char>| roots.deep_view().contains(x) <==> (before.contains(x) || x == root@) by {
                if roots.deep_view().contains(x) {
                    let j = choose|j: int| 0 <= j < roots.deep_view().len() && roots.deep_view()[j] == x;
                    if j < before.len() {
                        assert(before[j] == x);
                    }
                }
                if before.contains(x) {
                    let j = choose|j: int| 0 <= j < before.len() && before[j] == x;
                    assert(roots.deep_view()[j] == x);
                }
                if x == root@ {
                    assert(roots.deep_view()[before.len() as int] == x);
                }
            }
        }
    } else {
        assert(before.to_set() =~= before.to_set().insert(root@));
    }
}

/// The directories under the package that hold its source files, each once.
pub fn source_roots(m: &PackageManifest) -> (r: Vec<String>)
    requires
        declares_source_paths(*m),
    ensures
        r.deep_view().no_duplicates(),
        r.deep_view().to_set() == source_root_set(*m),
{
    let mut roots: Vec<String> = Vec::new();
    assert(roots.deep_view().to_set() =~= Set::<Seq<char>>::empty());
    match &m.lib_path {
        Some(p) => {
            push_new(&mut roots, parent_path(p.as_str()));
        },
        None => {},
    }
    assert(roots.deep_view().to_set() =~= roots_upto(*m, 0));
    let mut i: usize = 0;
    while i < m.product_paths.len()
        invariant
            i <= m.product_paths@.len(),
            roots.deep_view().no_duplicates(),
            roots.deep_view().to_set() == roots_upto(*m, i as int),
        decreases m.product_paths@.len() - i,
    {
        let ghost before = roots.deep_view().to_set();
        match &m.product_paths[i] {
            Some(p) => {
                push_new(&mut roots, parent_path(p.as_str()));
                assert(roots.deep_view().to_set() =~= before.insert(parent_dir(p@)));
                assert(product_root(*m, i as int, parent_dir(p@)));
            },
            None => {
                assert(roots.deep_view().to_set() =~= before);
            },
        }
        assert(roots.deep_view().to_set() =~= roots_upto(*m, i + 1)) by {
            assert forall|r: Seq<char>| roots_upto(*m, i + 1).contains(r) <==> (before.contains(r)
                || product_root(*m, i as int, r)) by {
                if before.contains(r) && !(m.lib_path is Some && r == parent_dir(m.lib_path->Some_0@)) {
                    let j = choose|j: int| 0 <= j < i && #[trigger] product_root(*m, j, r);
                    assert(product_root(*m, j, r));
                }
                if roots_upto(*m, i + 1).contains(r) && !(m.lib_path is Some && r == parent_dir(m.lib_path->Some_0@)) {
                    let j = choose|j: int| 0 <= j < i + 1 && #[trigger] product_root(*m, j, r);
                    if j < i {
                        assert(roots_upto(*m, i as int).contains(r));
                    }
                }
            }
        }
        i = i + 1;
    }
    assert(roots.deep_view().to_set() =~= declared_roots(*m));
    if roots.len() == 0 {
        assert(roots.deep_view() =~= Seq::<Seq<char>>::empty());
        roots.push(String::from_str("src"));
        assert(roots.deep_view() =~= seq!["src"@]);
        assert(roots.deep_view().to_set() =~= set!["src"@]) by {
            assert(roots.deep_view()[0] == "src"@);
        }
    } else {
        assert(roots.deep_view().to_set().contains(roots.deep_view()[0]));
    }
    roots
}

} // verus!
