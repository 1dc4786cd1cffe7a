//! The build tool's resolved dependency graph, and the dependency map it gives.
//!
//! In metadata-assisted mode the identifier of a dependency is the extern name that the
//! resolver reports, and its key is the `rename` of its dependency line, or else the name of
//! the package it resolves to.
use crate::deps::{DependencyMap, Dependency};
use vstd::prelude::*;
use vstd::string::{StrSliceExecFns, StringExecFns};

verus! {

/// One line of a package's dependency tables.
#[derive(Debug)]
pub struct DependencySpec {
    /// The name of the package depended on.
    pub name: String,
    /// The key the dependency is declared under, where it differs from `name`.
    pub rename: Option<String>,
}

/// A package of the graph.
#[derive(Debug)]
pub struct MetadataPackage {
    pub id: String,
    pub name: String,
    pub dependencies: Vec<DependencySpec>,
}

/// One resolved edge out of a node: the extern name, and the id of the package it leads to.
#[derive(Debug)]
pub struct NodeDep {
    pub name: String,
    pub pkg: String,
}

/// A resolved package and its edges.
#[derive(Debug)]
pub struct ResolveNode {
    pub id: String,
    pub deps: Vec<NodeDep>,
}

/// The resolved graph, and the package it was resolved for, if any.
#[derive(Debug)]
pub struct Resolve {
    pub nodes: Vec<ResolveNode>,
    pub root: Option<String>,
}

/// What the build tool's metadata command reports.
#[derive(Debug)]
pub struct CargoMetadata {
    pub packages: Vec<MetadataPackage>,
    pub resolve: Option<Resolve>,
}

/// Why a package could not be analysed.
#[derive(Clone, Copy, Debug, PartialEq, Eq)]
pub enum AnalysisError {
    /// The graph holds no node for its root.
    RootNodeMissing,
    /// The package list holds no package for the root.
    RootPackageMissing,
    /// An edge leads to a package that the package list does not hold.
    PackageMissing,
    /// The root package has no dependency line for a package that it resolved to.
    DependencySpecMissing,
    /// An extern name holds a `-`, which no identifier does.
    InvalidIdent,
    /// A search pattern did not compile.
    Pattern,
}

/// The first node with id `id`.
pub open spec fn first_node(nodes: Seq<ResolveNode>, id: Seq<char>) -> Option<ResolveNode>
    decreases nodes.len(),
{
    if nodes.len() == 0 {
        None
    } else if nodes[0].id@ == id {
        Some(nodes[0])
    } else {
        first_node(nodes.drop_first(), id)
    }
}

/// The first package with id `id`.
pub open spec fn first_package(pkgs: Seq<MetadataPackage>, id: Seq<char>) -> Option<MetadataPackage>
    decreases pkgs.len(),
{
    if pkgs.len() == 0 {
        None
    } else if pkgs[0].id@ == id {
        Some(pkgs[0])
    } else {
        first_package(pkgs.drop_first(), id)
    }
}

/// The first dependency line on the package named `name`.
pub open spec fn first_spec(specs: Seq<DependencySpec>, name: Seq<char>) -> Option<DependencySpec>
    decreases specs.len(),
{
    if specs.len() == 0 {
        None
    } else if specs[0].name@ == name {
        Some(specs[0])
    } else {
        first_spec(specs.drop_first(), name)
    }
}

/// The key a dependency line declares.
pub open spec fn spec_key(s: DependencySpec) -> Seq<char> {
    match s.rename {
        Some(r) => r@,
        None => s.name@,
    }
}

/// The key and identifier that one edge of the root gives.
pub open spec fn edge_entry(pkgs: Seq<MetadataPackage>, root: MetadataPackage, dep: NodeDep) -> Result<
    (Seq<char>, Seq<char>),
    AnalysisError,
> {
    match first_package(pkgs, dep.pkg@) {
        None => Err(AnalysisError::PackageMissing),
        Some(p) => match first_spec(root.dependencies@, p.name@) {
            None => Err(AnalysisError::DependencySpecMissing),
            Some(s) => if dep.name@.contains('-') {
                Err(AnalysisError::InvalidIdent)
            } else {
                Ok((spec_key(s), dep.name@))
            },
        },
    }
}

/// The map that the edges give, each later edge in place of an earlier one with its key; the
/// first edge that fails gives the error.
pub open spec fn edges_map(pkgs: Seq<MetadataPackage>, root: MetadataPackage, deps: Seq<NodeDep>) -> Result<
    Map<Seq<char>, Seq<char>>,
    AnalysisError,
>
    decreases deps.len(),
{
    if deps.len() == 0 {
        Ok(Map::empty())
    } else {
        match edges_map(pkgs, root, deps.drop_last()) {
            Err(e) => Err(e),
            Ok(m) => match edge_entry(pkgs, root, deps.last()) {
                Err(e) => Err(e),
                Ok(kv) => Ok(m.insert(kv.0, kv.1)),
            },
        }
    }
}

/// The dependency map of a resolved graph: empty where it has no root.
pub open spec fn resolve_map(pkgs: Seq<MetadataPackage>, resolve: Resolve) -> Result<
    Map<Seq<char>, Seq<char>>,
    AnalysisError,
> {
    match resolve.root {
        None => Ok(Map::empty()),
        Some(root) => match first_node(resolve.nodes@, root@) {
            None => Err(AnalysisError::RootNodeMissing),
            Some(node) => match first_package(pkgs, root@) {
                None => Err(AnalysisError::RootPackageMissing),
                Some(pkg) => edges_map(pkgs, pkg, node.deps@),
            },
        },
    }
}

fn find_node(nodes: &Vec<ResolveNode>, id: &String) -> (r: Option<usize>)
    ensures
        match first_node(nodes@, id@) {
            None => r is None,
            Some(x) => r is Some && r->Some_0 < nodes@.len() && nodes@[r->Some_0 as int] == x,
        },
{
    let mut i: usize = 0;
    assert(nodes@.subrange(0, nodes@.len() as int) =~= nodes@);
    while i < nodes.len()
        invariant
            i <= nodes@.len(),
            first_node(nodes@, id@) == first_node(nodes@.subrange(i as int, nodes@.len() as int), id@),
        decreases nodes@.len() - i,
    {
        let ghost rest = nodes@.subrange(i as int, nodes@.len() as int);
        assert(rest.drop_first() =~= nodes@.subrange(i + 1, nodes@.len() as int));
        if nodes[i].id == *id {
            return Some(i);
        }
        i = i + 1;
    }
    None
}

fn find_package(pkgs: &Vec<MetadataPackage>, id: &String) -> (r: Option<usize>)
    ensures
        match first_package(pkgs@, id@) {
            None => r is None,
            Some(x) => r is Some && r->Some_0 < pkgs@.len() && pkgs@[r->Some_0 as int] == x,
        },
{
    let mut i: usize = 0;
    assert(pkgs@.subrange(0, pkgs@.len() as int) =~= pkgs@);
    while i < pkgs.len()
        invariant
            i <= pkgs@.len(),
            first_package(pkgs@, id@) == first_package(pkgs@.subrange(i as int, pkgs@.len() as int), id@),
        decreases pkgs@.len() - i,
    {
        let ghost rest = pkgs@.subrange(i as int, pkgs@.len() as int);
        assert(rest.drop_first() =~= pkgs@.subrange(i + 1, pkgs@.len() as int));
        if pkgs[i].id == *id {
            return Some(i);
        }
        i = i + 1;
    }
    None
}

fn find_spec(specs: &Vec<DependencySpec>, name: &String) -> (r: Option<usize>)
    ensures
        match first_spec(specs@, name@) {
            None => r is None,
            Some(x) => r is Some && r->Some_0 < specs@.len() && specs@[r->Some_0 as int] == x,
        },
{
    let mut i: usize = 0;
    assert(specs@.subrange(0, specs@.len() as int) =~= specs@);
    while i < specs.len()
        invariant
            i <= specs@.len(),
            first_spec(specs@, name@) == first_spec(specs@.subrange(i as int, specs@.len() as int), name@),
        decreases specs@.len() - i,
    {
        let ghost rest = specs@.subrange(i as int, specs@.len() as int);
        assert(rest.drop_first() =~= specs@.subrange(i + 1, specs@.len() as int));
        if specs[i].name == *name {
            return Some(i);
        }
        i = i + 1;
    }
    None
}

/// Whether `s` holds a `-`.
pub fn has_hyphen(s: &str) -> (r: bool)
    ensures
        r == s@.contains('-'),
{
    let n = s.unicode_len();
    let mut i: usize = 0;
    while i < n
        invariant
            n == s@.len(),
            i <= n,
            forall|j: int| 0 <= j < i ==> s@[j] != '-',
        decreases n - i,
    {
        if s.get_char(i) == '-' {
            assert(s@[i as int] == '-');
            return true;
        }
        i = i + 1;
    }
    false
}

fn edge_dependency(pkgs: &Vec<MetadataPackage>, root: &MetadataPackage, dep: &NodeDep) -> (r: Result<Dependency, AnalysisError>)
    ensures
        match edge_entry(pkgs@, *root, *dep) {
            Ok(kv) => r is Ok && r->Ok_0.key@ == kv.0 && r->Ok_0.ident@ == kv.1,
            Err(e) => r == Err::<Dependency, AnalysisError>(e),
        },
{
    let pkg = match find_package(pkgs, &dep.pkg) {
        Some(p) => &pkgs[p],
        None => return Err(AnalysisError::PackageMissing),
    };
    let spec = match find_spec(&root.dependencies, &pkg.name) {
        Some(s) => &root.dependencies[s],
        None => return Err(AnalysisError::DependencySpecMissing),
    };
    if has_hyphen(dep.name.as_str()) {
        return Err(AnalysisError::InvalidIdent);
    }
    let key = match &spec.rename {
        Some(r) => String::from_str(r.as_str()),
        None => String::from_str(spec.name.as_str()),
    };
    Ok(Dependency { key, ident: String::from_str(dep.name.as_str()) })
}

/// The dependency map of metadata-assisted mode.
pub fn metadata_dependencies(metadata: &CargoMetadata, resolve: &Resolve) -> (r: Result<DependencyMap, AnalysisError>)
    ensures
        match resolve_map(metadata.packages@, *resolve) {
            Ok(m) => r is Ok && r->Ok_0.wf() && r->Ok_0@ == m,
            Err(e) => r is Err && r->Err_0 == e,
        },
{
    let root = match &resolve.root {
        None => return Ok(DependencyMap::new()),
        Some(root) => root,
    };
    let node = match find_node(&resolve.nodes, root) {
        Some(n) => &resolve.nodes[n],
        None => return Err(AnalysisError::RootNodeMissing),
    };
    let pkg = match find_package(&metadata.packages, root) {
        Some(p) => &metadata.packages[p],
        None => return Err(AnalysisError::RootPackageMissing),
    };
    let ghost pkgs = metadata.packages@;
    let mut map = DependencyMap::new();
    let mut i: usize = 0;
    while i < node.deps.len()
        invariant
            i <= node.deps@.len(),
            pkgs == metadata.packages@,
            resolve_map(pkgs, *resolve) == edges_map(pkgs, *pkg, node.deps@),
            map.wf(),
            edges_map(pkgs, *pkg, node.deps@.subrange(0, i as int)) == Ok::<Map<Seq<char>, Seq<char>>, AnalysisError>(map@),
        decreases node.deps@.len() - i,
    {
        let ghost prefix = node.deps@.subrange(0, i + 1);
        assert(prefix.drop_last() =~= node.deps@.subrange(0, i as int));
        assert(prefix.last() == node.deps@[i as int]);
        match edge_dependency(&metadata.packages, pkg, &node.deps[i]) {
            Ok(d) => {
                map.insert(d.key, d.ident);
                assert(edges_map(pkgs, *pkg, prefix) == Ok::<Map<Seq<char>, Seq<char>>, AnalysisError>(map@));
            },
            Err(e) => {
                proof {
                    assert(edges_map(pkgs, *pkg, prefix) == Err::<Map<Seq<char>, Seq<char>>, AnalysisError>(e));
                    lemma_error_persists(pkgs, *pkg, node.deps@, i as int + 1, e);
                    assert(node.deps@.subrange(0, node.deps@.len() as int) =~= node.deps@);
                }
                return Err(e);
            },
        }
        i = i + 1;
    }
    assert(node.deps@.subrange(0, node.deps@.len() as int) =~= node.deps@);
    Ok(map)
}

/// No identifier of a resolved map holds a `-`.
pub proof fn lemma_resolved_idents(pkgs: Seq<MetadataPackage>, resolve: Resolve)
    ensures
        resolve_map(pkgs, resolve) is Ok ==> forall|k: Seq<char>| #[trigger] resolve_map(pkgs, resolve)->Ok_0.contains_key(k)
            ==> !resolve_map(pkgs, resolve)->Ok_0[k].contains('-'),
{
    match resolve.root {
        None => {},
        Some(root) => match first_node(resolve.nodes@, root@) {
            None => {},
            Some(node) => match first_package(pkgs, root@) {
                None => {},
                Some(pkg) => lemma_edges_idents(pkgs, pkg, node.deps@),
            },
        },
    }
}

proof fn lemma_edges_idents(pkgs: Seq<MetadataPackage>, root: MetadataPackage, deps: Seq<NodeDep>)
    ensures
        edges_map(pkgs, root, deps) is Ok ==> forall|k: Seq<char>| #[trigger] edges_map(pkgs, root, deps)->Ok_0.contains_key(k)
            ==> !edges_map(pkgs, root, deps)->Ok_0[k].contains('-'),
    decreases deps.len(),
{
    if deps.len() > 0 {
        lemma_edges_idents(pkgs, root, deps.drop_last());
    }
}

proof fn lemma_error_persists(pkgs: Seq<MetadataPackage>, root: MetadataPackage, deps: Seq<NodeDep>, i: int, e: AnalysisError)
    requires
        0 <= i <= deps.len(),
        edges_map(pkgs, root, deps.subrange(0, i)) == Err::<Map<Seq<char>, Seq<char>>, AnalysisError>(e),
    ensures
        edges_map(pkgs, root, deps) == Err::<Map<Seq<char>, Seq<char>>, AnalysisError>(e),
    decreases deps.len() - i,
{
    if i < deps.len() {
        let next = deps.subrange(0, i + 1);
        assert(next.drop_last() =~= deps.subrange(0, i));
        lemma_error_persists(pkgs, root, deps, i + 1, e);
    } else {
        assert(deps.subrange(0, i) =~= deps);
    }
}

} // verus!
