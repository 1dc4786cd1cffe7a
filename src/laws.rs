//! Properties of the analysis that hold for every package.
use crate::analysis::{ignored_used_keys, unused_keys, PackageAnalysis};
use crate::deps::{manifest_map, normalized};
use vstd::prelude::*;

verus! {

/// Every key reported as unused is declared, and every key reported as ignored but used is
/// declared and on the package's ignore list. In manifest-only mode the declared keys are
/// exactly the keys of the runtime dependency table.
pub proof fn lemma_reports_are_declared(
    keys: Seq<Seq<char>>,
    deps: Map<Seq<char>, Seq<char>>,
    files: Seq<Seq<u8>>,
    ignored: Seq<Seq<char>>,
    workspace_ignored: Seq<Seq<char>>,
)
    ensures
        unused_keys(deps, files, ignored, workspace_ignored).subset_of(deps.dom()),
        ignored_used_keys(deps, files, ignored, workspace_ignored).subset_of(
            deps.dom().intersect(ignored.to_set()),
        ),
        manifest_map(keys).dom() == keys.to_set(),
{
    assert(manifest_map(keys).dom() =~= keys.to_set());
}

/// No key is reported both as unused and as ignored but used.
pub proof fn lemma_reports_disjoint(
    deps: Map<Seq<char>, Seq<char>>,
    files: Seq<Seq<u8>>,
    ignored: Seq<Seq<char>>,
    workspace_ignored: Seq<Seq<char>>,
)
    ensures
        unused_keys(deps, files, ignored, workspace_ignored).disjoint(
            ignored_used_keys(deps, files, ignored, workspace_ignored),
        ),
{
}

/// Two analyses of the same inputs report the same keys.
pub proof fn lemma_deterministic(
    a: PackageAnalysis,
    b: PackageAnalysis,
    deps: Map<Seq<char>, Seq<char>>,
    files: Seq<Seq<u8>>,
    ignored: Seq<Seq<char>>,
    workspace_ignored: Seq<Seq<char>>,
)
    requires
        a.reports(deps, files, ignored, workspace_ignored),
        b.reports(deps, files, ignored, workspace_ignored),
    ensures
        a.unused.deep_view().to_set() == b.unused.deep_view().to_set(),
        a.ignored_used.deep_view().to_set() == b.ignored_used.deep_view().to_set(),
{
}

/// Metadata-assisted mode reports no key as unused that manifest-only mode keeps, unless the
/// dependency is renamed: its identifier differs from its key with `-` written as `_`. Here
/// `meta` is the map that the metadata gives, and every key of it is a key of the runtime
/// dependency table `keys`.
pub proof fn lemma_metadata_no_less_precise(
    keys: Seq<Seq<char>>,
    meta: Map<Seq<char>, Seq<char>>,
    files: Seq<Seq<u8>>,
    ignored: Seq<Seq<char>>,
    workspace_ignored: Seq<Seq<char>>,
)
    requires
        forall|k: Seq<char>| meta.contains_key(k) ==> keys.contains(k),
    ensures
        forall|k: Seq<char>|
            #[trigger] unused_keys(meta, files, ignored, workspace_ignored).contains(k) ==> unused_keys(
                manifest_map(keys),
                files,
                ignored,
                workspace_ignored,
            ).contains(k) || meta[k] != normalized(k),
{
}

} // verus!
