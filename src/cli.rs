//! Decisions of the command-line tool that do not depend on its environment.
use vstd::prelude::*;
use vstd::string::StringExecFns;

verus! {

/// Whether the tool runs as a subcommand of the build driver: the driver's variable `CARGO` is
/// set, but `CARGO_PKG_NAME`, which a `run` of the driver also sets, is not.
pub fn running_as_cargo_cmd(cargo_set: bool, package_name_set: bool) -> (r: bool)
    ensures
        r == (cargo_set && !package_name_set),
{
    cargo_set && !package_name_set
}

/// The process's exit status: 2 after an error, else 1 where an unused dependency was found,
/// else 0.
pub fn exit_code(failed: bool, has_unused: bool) -> (r: i32)
    ensures
        r == (if failed {
            2i32
        } else if has_unused {
            1i32
        } else {
            0i32
        }),
{
    if failed {
        2
    } else if has_unused {
        1
    } else {
        0
    }
}

/// Whether a file name is that of a package manifest.
pub fn is_manifest_file_name(name: &str) -> (r: bool)
    ensures
        r == (name@ == "Cargo.toml"@),
{
    String::from_str(name) == String::from_str("Cargo.toml")
}

} // verus!
