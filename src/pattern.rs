//! The regular expressions that recognise a reference to a crate in source text.
use vstd::prelude::*;
use vstd::string::StringExecFns;

verus! {

/// The single-line pattern for the crate identifier `name`.
///
/// It matches `use name;`, `use name::…`, `use name as …` (with an optional leading `::`),
/// a path `name::…` that is not itself under another path, and `extern crate name`.
/// The identifier is matched without regard to case.
pub open spec fn line_pattern(name: Seq<char>) -> Seq<char> {
    "use (::)?(?i)"@ + name + "(?-i)(::|;| as)|(?:[^:]|^|\\W::)\\b(?i)"@ + name
        + "(?-i)::|extern crate (?i)"@ + name + "(?-i)( |;)"@
}

/// What may follow an item of a grouped `use`: sub-paths, a glob, a rename, or braces nested
/// up to four levels deep.
pub open spec fn group_tail() -> Seq<char> {
    "(?:::\\w+)*(?:::\\*|\\s+as\\s+\\w+|::\\{(?:[^{}]*(?:\\{(?:[^{}]*(?:\\{(?:[^{}]*(?:\\{[^{}]*\\})?[^{}]*)*\\})?[^{}]*)*\\})?[^{}]*)*\\})?"@
}

/// The multi-line pattern for the crate identifier `name`: a grouped `use { … };` that holds
/// `name` at its top level, between any number of other top-level items. The identifier is
/// matched without regard to case.
pub open spec fn group_pattern(name: Seq<char>) -> Seq<char> {
    "use \\{\\s*(?:(::)?\\w+"@ + group_tail() + "\\s*,\\s*)*(::)?(?i)"@ + name + "(?-i)"@ + group_tail()
        + "\\s*(?:\\s*,\\s*(::)?\\w+"@ + group_tail() + ")*\\s*,?\\s*\\};"@
}

/// Builds the single-line pattern for `name`.
pub fn make_line_regexp(name: &str) -> (r: String)
    ensures
        r@ == line_pattern(name@),
{
    let mut r = String::from_str("use (::)?(?i)");
    r.append(name);
    r.append("(?-i)(::|;| as)|(?:[^:]|^|\\W::)\\b(?i)");
    r.append(name);
    r.append("(?-i)::|extern crate (?i)");
    r.append(name);
    r.append("(?-i)( |;)");
    r
}

fn group_tail_text() -> (r: String)
    ensures
        r@ == group_tail(),
{
    String::from_str(
        "(?:::\\w+)*(?:::\\*|\\s+as\\s+\\w+|::\\{(?:[^{}]*(?:\\{(?:[^{}]*(?:\\{(?:[^{}]*(?:\\{[^{}]*\\})?[^{}]*)*\\})?[^{}]*)*\\})?[^{}]*)*\\})?",
    )
}

/// Builds the multi-line pattern for `name`.
pub fn make_multiline_regexp(name: &str) -> (r: String)
    ensures
        r@ == group_pattern(name@),
{
    let tail = group_tail_text();
    let mut r = String::from_str("use \\{\\s*(?:(::)?\\w+");
    r.append(tail.as_str());
    r.append("\\s*,\\s*)*(::)?(?i)");
    r.append(name);
    r.append("(?-i)");
    r.append(tail.as_str());
    r.append("\\s*(?:\\s*,\\s*(::)?\\w+");
    r.append(tail.as_str());
    r.append(")*\\s*,?\\s*\\};");
    r
}

} // verus!
