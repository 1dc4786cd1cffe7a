//! Rules for removing unused dependencies from a manifest.
//!
//! Entries are removed from every dependency table: the runtime, dev and build tables at the
//! top level, and those under each `target.<platform>` table.
use toml_edit::{DocumentMut, TableLike};
use vstd::prelude::*;
use vstd::string::{StrSliceExecFns, StringExecFns};

verus! {

/// The names of the dependency tables.
pub open spec fn is_dependency_table_name(key: Seq<char>) -> bool {
    key == "dependencies"@ || key == "build-dependencies"@ || key == "dev-dependencies"@
}

/// Whether a table named `key` is a dependency table.
pub fn is_dependency_table(key: &str) -> (r: bool)
    ensures
        r == is_dependency_table_name(key@),
{
    let k = String::from_str(key);
    k == String::from_str("dependencies") || k == String::from_str("build-dependencies") || k
        == String::from_str("dev-dependencies")
}

/// `names` joined with `, `.
pub open spec fn joined(names: Seq<Seq<char>>) -> Seq<char>
    decreases names.len(),
{
    if names.len() == 0 {
        Seq::empty()
    } else if names.len() == 1 {
        names[0]
    } else {
        joined(names.drop_last()) + ", "@ + names.last()
    }
}

/// The message of a removal that found `dep` in none of `tables`.
pub open spec fn not_found_text(dep: Seq<char>, tables: Seq<Seq<char>>) -> Seq<char> {
    dep + " not found in tables:\n\t"@ + joined(tables)
}

/// Says that `dep` was found in none of the tables named `tables`.
pub fn not_found_message(dep: &str, tables: &Vec<String>) -> (r: String)
    ensures
        r@ == not_found_text(dep@, tables.deep_view()),
{
    let mut list = String::from_str("");
    let mut i: usize = 0;
    proof {
        reveal_strlit("");
    }
    assert(list@ =~= joined(tables.deep_view().subrange(0, 0)));
    while i < tables.len()
        invariant
            i <= tables.len(),
            list@ == joined(tables.deep_view().subrange(0, i as int)),
        decreases tables.len() - i,
    {
        let ghost prefix = tables.deep_view().subrange(0, i + 1);
        assert(prefix.drop_last() =~= tables.deep_view().subrange(0, i as int));
        if i > 0 {
            list.append(", ");
        }
        list.append(tables[i].as_str());
        assert(list@ =~= joined(prefix));
        i = i + 1;
    }
    assert(tables.deep_view().subrange(0, tables.len() as int) =~= tables.deep_view());
    let mut r = String::from_str(dep);
    r.append(" not found in tables:\n\t");
    r.append(list.as_str());
    r
}

#[verifier::external_type_specification]
#[verifier::external_body]
pub struct ExDocumentMut(DocumentMut);

#[verifier::external_type_specification]
#[verifier::external_body]
pub struct ExTomlError(toml_edit::TomlError);

/// The keys, in order, of the table or inline table that `path` leads to from the root of `doc`;
/// `None` where no table is there. The root is the empty path.
pub uninterp spec fn table_keys(doc: DocumentMut, path: Seq<Seq<char>>) -> Option<Seq<Seq<char>>>;

/// The text of `doc`, formatting and comments kept.
pub uninterp spec fn toml_text(doc: DocumentMut) -> Seq<char>;

/// Whether `text` is a valid TOML document.
pub uninterp spec fn toml_parses(text: Seq<char>) -> bool;

/// The keys, in order, of the table that `path` leads to in the document that `text` parses to;
/// `None` where no table is there.
pub uninterp spec fn parsed_keys(text: Seq<char>, path: Seq<Seq<char>>) -> Option<Seq<Seq<char>>>;

/// Relies on toml_edit's `DocumentMut::from_str`, which parses a document and keeps its
/// formatting; what the document holds depends on the text alone.
#[verifier::external_body]
fn parse_document(text: &str) -> (r: Result<DocumentMut, toml_edit::TomlError>)
    ensures
        r is Ok <==> toml_parses(text@),
        r is Ok ==> forall|p: Seq<Seq<char>>| #[trigger] table_keys(r->Ok_0, p) == parsed_keys(text@, p),
{
    <DocumentMut as std::str::FromStr>::from_str(text)
}

/// Relies on toml_edit's `TableLike::get` and `Item::as_table_like` to follow `path`, and on
/// `TableLike::iter`, which lists the keys of the table in order.
#[verifier::external_body]
fn keys_at(doc: &DocumentMut, path: &Vec<String>) -> (r: Option<Vec<String>>)
    ensures
        r.deep_view() == table_keys(*doc, path.deep_view()),
{
    let mut table: &dyn TableLike = doc.as_table();
    for key in path.iter() {
        match table.get(key).and_then(|item| item.as_table_like()) {
            Some(t) => table = t,
            None => return None,
        }
    }
    Some(table.iter().map(|(k, _)| k.to_string()).collect())
}

/// `prefix` is a prefix of `path`.
pub open spec fn is_prefix(prefix: Seq<Seq<char>>, path: Seq<Seq<char>>) -> bool {
    prefix.len() <= path.len() && path.subrange(0, prefix.len() as int) == prefix
}

/// The test for keys other than `key`.
pub open spec fn other_than(key: Seq<char>) -> spec_fn(Seq<char>) -> bool {
    |k: Seq<char>| k != key
}

/// `keys` without `key`.
pub open spec fn without(keys: Seq<Seq<char>>, key: Seq<char>) -> Seq<Seq<char>> {
    keys.filter(other_than(key))
}

/// Relies on toml_edit's `TableLike::get_mut` and `Item::as_table_like_mut` to follow `path`,
/// on `TableLike::get`, which finds exactly the keys that `TableLike::iter` lists, and on `TableLike::remove`, which takes `key` out of the
/// table and keeps the order of the others. Nothing changes but what lies under `key`.
#[verifier::external_body]
fn remove_at(doc: &mut DocumentMut, path: &Vec<String>, key: &str) -> (r: bool)
    ensures
        r == (table_keys(*old(doc), path.deep_view()) is Some && table_keys(*old(doc), path.deep_view())->Some_0.contains(key@)),
        table_keys(*old(doc), path.deep_view()) is Some ==> table_keys(*final(doc), path.deep_view()) == Some(
            without(table_keys(*old(doc), path.deep_view())->Some_0, key@),
        ),
        forall|p: Seq<Seq<char>>|
            (p != path.deep_view() && !is_prefix(path.deep_view().push(key@), p)) || table_keys(*old(doc), path.deep_view()) is None
                ==> #[trigger] table_keys(*final(doc), p) == table_keys(*old(doc), p),
{
    let mut table: &mut dyn TableLike = doc.as_table_mut();
    for segment in path.iter() {
        match { table }.get_mut(segment).and_then(|item| item.as_table_like_mut()) {
            Some(t) => table = t,
            None => return false,
        }
    }
    let held = table.get(key).is_some();
    table.remove(key);
    held
}

/// Relies on toml_edit's `Display` for `DocumentMut`, which writes the document back out.
#[verifier::external_body]
fn document_text(doc: &DocumentMut) -> (r: String)
    ensures
        r@ == toml_text(*doc),
{
    doc.to_string()
}

/// Why a manifest could not be rewritten.
#[derive(Debug)]
pub enum FixError {
    /// The manifest is not valid TOML.
    Parse,
    /// A dependency table, or `target`, holds something other than a table.
    NotATable(String),
    /// A dependency to remove is in none of the tables, whose names are listed.
    NotFound { dep: String, tables: Vec<String> },
}

/// The dependency tables among `keys`, the keys of the table at `prefix`: the path of each; or
/// the first such key whose value is not a table.
pub open spec fn tables_among(doc: DocumentMut, prefix: Seq<Seq<char>>, keys: Seq<Seq<char>>) -> Result<
    Seq<Seq<Seq<char>>>,
    Seq<char>,
>
    decreases keys.len(),
{
    if keys.len() == 0 {
        Ok(Seq::empty())
    } else {
        match tables_among(doc, prefix, keys.drop_last()) {
            Err(k) => Err(k),
            Ok(ps) => if is_dependency_table_name(keys.last()) {
                match table_keys(doc, prefix.push(keys.last())) {
                    None => Err(keys.last()),
                    Some(_) => Ok(ps.push(prefix.push(keys.last()))),
                }
            } else {
                Ok(ps)
            },
        }
    }
}

/// The dependency tables under the platform tables among `keys`, the keys of `target`.
pub open spec fn platform_tables(doc: DocumentMut, keys: Seq<Seq<char>>) -> Result<Seq<Seq<Seq<char>>>, Seq<char>>
    decreases keys.len(),
{
    if keys.len() == 0 {
        Ok(Seq::empty())
    } else {
        match platform_tables(doc, keys.drop_last()) {
            Err(k) => Err(k),
            Ok(ps) => match table_keys(doc, seq!["target"@, keys.last()]) {
                None => Ok(ps),
                Some(ks) => match tables_among(doc, seq!["target"@, keys.last()], ks) {
                    Err(k) => Err(k),
                    Ok(qs) => Ok(ps + qs),
                },
            },
        }
    }
}

/// The dependency tables at the top level among `keys`, the root's keys, and under `target`.
pub open spec fn top_tables(doc: DocumentMut, keys: Seq<Seq<char>>) -> Result<Seq<Seq<Seq<char>>>, Seq<char>>
    decreases keys.len(),
{
    if keys.len() == 0 {
        Ok(Seq::empty())
    } else {
        match top_tables(doc, keys.drop_last()) {
            Err(k) => Err(k),
            Ok(ps) => if is_dependency_table_name(keys.last()) {
                match table_keys(doc, seq![keys.last()]) {
                    None => Err(keys.last()),
                    Some(_) => Ok(ps.push(seq![keys.last()])),
                }
            } else if keys.last() == "target"@ {
                match table_keys(doc, seq!["target"@]) {
                    None => Err("target"@),
                    Some(ts) => match platform_tables(doc, ts) {
                        Err(k) => Err(k),
                        Ok(qs) => Ok(ps + qs),
                    },
                }
            } else {
                Ok(ps)
            },
        }
    }
}

/// The paths of all dependency tables of `doc`, in document order; or the first key that
/// should hold a table and does not.
pub open spec fn dependency_tables(doc: DocumentMut) -> Result<Seq<Seq<Seq<char>>>, Seq<char>> {
    match table_keys(doc, Seq::empty()) {
        None => Ok(Seq::empty()),
        Some(keys) => top_tables(doc, keys),
    }
}

fn extended(prefix: &Vec<String>, key: &String) -> (r: Vec<String>)
    ensures
        r.deep_view() == prefix.deep_view().push(key@),
{
    let mut r: Vec<String> = Vec::new();
    let mut i: usize = 0;
    while i < prefix.len()
        invariant
            i <= prefix.len(),
            r.deep_view() == prefix.deep_view().subrange(0, i as int),
        decreases prefix.len() - i,
    {
        let ghost before = r.deep_view();
        r.push(String::from_str(prefix[i].as_str()));
        assert(r.deep_view() =~= before.push(prefix[i as int]@));
        assert(r.deep_view() =~= prefix.deep_view().subrange(0, i + 1));
        i = i + 1;
    }
    assert(prefix.deep_view().subrange(0, prefix.len() as int) =~= prefix.deep_view());
    let ghost before = r.deep_view();
    r.push(String::from_str(key.as_str()));
    assert(r.deep_view() =~= before.push(key@));
    assert(r.deep_view() =~= prefix.deep_view().push(key@));
    r
}

fn append_paths(out: &mut Vec<Vec<String>>, more: Vec<Vec<String>>)
    ensures
        final(out).deep_view() == old(out).deep_view() + more.deep_view(),
{
    let ghost start = out.deep_view();
    let mut more = more;
    let ghost all = more.deep_view();
    let mut rest: Vec<Vec<String>> = Vec::new();
    // Take the paths off the end, then put them back in order.
    while more.len() > 0
        invariant
            all == more.deep_view() + rest.deep_view().reverse(),
            out.deep_view() == start,
        decreases more.len(),
    {
        let p = more.pop().unwrap();
        proof {
            assert(rest.deep_view().push(p.deep_view()).reverse() =~= seq![p.deep_view()] + rest.deep_view().reverse());
        }
        rest.push(p);
        assert(all =~= more.deep_view() + rest.deep_view().reverse());
    }
    assert(all =~= rest.deep_view().reverse());
    while rest.len() > 0
        invariant
            out.deep_view() + rest.deep_view().reverse() == start + all,
        decreases rest.len(),
    {
        let ghost before = rest.deep_view();
        let p = rest.pop().unwrap();
        proof {
            assert(before =~= rest.deep_view().push(p.deep_view()));
            assert(before.reverse() =~= seq![p.deep_view()] + rest.deep_view().reverse());
        }
        out.push(p);
        assert(out.deep_view() + rest.deep_view().reverse() =~= start + all);
    }
    assert(rest.deep_view().reverse() =~= Seq::<Seq<Seq<char>>>::empty());
    assert(out.deep_view() =~= start + all);
}

/// The dependency tables among `keys`, the keys of the table at `prefix`.
fn tables_in(doc: &DocumentMut, prefix: &Vec<String>, keys: &Vec<String>) -> (r: Result<Vec<Vec<String>>, String>)
    ensures
        match tables_among(*doc, prefix.deep_view(), keys.deep_view()) {
            Ok(ps) => r is Ok && r->Ok_0.deep_view() == ps,
            Err(k) => r is Err && r->Err_0@ == k,
        },
{
    let mut out: Vec<Vec<String>> = Vec::new();
    let mut i: usize = 0;
    assert(out.deep_view() =~= Seq::<Seq<Seq<char>>>::empty());
    while i < keys.len()
        invariant
            i <= keys.len(),
            tables_among(*doc, prefix.deep_view(), keys.deep_view().subrange(0, i as int)) == Ok::<Seq<Seq<Seq<char>>>, Seq<char>>(out.deep_view()),
        decreases keys.len() - i,
    {
        let ghost sub = keys.deep_view().subrange(0, i + 1);
        assert(sub.drop_last() =~= keys.deep_view().subrange(0, i as int));
        assert(sub.last() == keys[i as int]@);
        if is_dependency_table(keys[i].as_str()) {
            let path = extended(prefix, &keys[i]);
            match keys_at(doc, &path) {
                None => {
                    proof {
                        lemma_among_error_persists(*doc, prefix.deep_view(), keys.deep_view(), i + 1, keys[i as int]@);
                    }
                    return Err(String::from_str(keys[i].as_str()));
                },
                Some(_) => {
                    let ghost before = out.deep_view();
                    out.push(path);
                    assert(out.deep_view() =~= before.push(prefix.deep_view().push(keys[i as int]@)));
                },
            }
        }
        i = i + 1;
    }
    assert(keys.deep_view().subrange(0, keys.len() as int) =~= keys.deep_view());
    Ok(out)
}

proof fn lemma_among_error_persists(doc: DocumentMut, prefix: Seq<Seq<char>>, keys: Seq<Seq<char>>, i: int, k: Seq<char>)
    requires
        0 <= i <= keys.len(),
        tables_among(doc, prefix, keys.subrange(0, i)) == Err::<Seq<Seq<Seq<char>>>, Seq<char>>(k),
    ensures
        tables_among(doc, prefix, keys) == Err::<Seq<Seq<Seq<char>>>, Seq<char>>(k),
    decreases keys.len() - i,
{
    if i < keys.len() {
        assert(keys.subrange(0, i + 1).drop_last() =~= keys.subrange(0, i));
        lemma_among_error_persists(doc, prefix, keys, i + 1, k);
    } else {
        assert(keys.subrange(0, i) =~= keys);
    }
}

proof fn lemma_platform_error_persists(doc: DocumentMut, keys: Seq<Seq<char>>, i: int, k: Seq<char>)
    requires
        0 <= i <= keys.len(),
        platform_tables(doc, keys.subrange(0, i)) == Err::<Seq<Seq<Seq<char>>>, Seq<char>>(k),
    ensures
        platform_tables(doc, keys) == Err::<Seq<Seq<Seq<char>>>, Seq<char>>(k),
    decreases keys.len() - i,
{
    if i < keys.len() {
        assert(keys.subrange(0, i + 1).drop_last() =~= keys.subrange(0, i));
        lemma_platform_error_persists(doc, keys, i + 1, k);
    } else {
        assert(keys.subrange(0, i) =~= keys);
    }
}

proof fn lemma_top_error_persists(doc: DocumentMut, keys: Seq<Seq<char>>, i: int, k: Seq<char>)
    requires
        0 <= i <= keys.len(),
        top_tables(doc, keys.subrange(0, i)) == Err::<Seq<Seq<Seq<char>>>, Seq<char>>(k),
    ensures
        top_tables(doc, keys) == Err::<Seq<Seq<Seq<char>>>, Seq<char>>(k),
    decreases keys.len() - i,
{
    if i < keys.len() {
        assert(keys.subrange(0, i + 1).drop_last() =~= keys.subrange(0, i));
        lemma_top_error_persists(doc, keys, i + 1, k);
    } else {
        assert(keys.subrange(0, i) =~= keys);
    }
}

fn target_path() -> (r: Vec<String>)
    ensures
        r.deep_view() == seq!["target"@],
{
    let mut r: Vec<String> = Vec::new();
    r.push(String::from_str("target"));
    assert(r.deep_view() =~= seq!["target"@]);
    r
}

/// The dependency tables under the platform tables among `keys`, the keys of `target`.
fn platform_tables_in(doc: &DocumentMut, keys: &Vec<String>) -> (r: Result<Vec<Vec<String>>, String>)
    ensures
        match platform_tables(*doc, keys.deep_view()) {
            Ok(ps) => r is Ok && r->Ok_0.deep_view() == ps,
            Err(k) => r is Err && r->Err_0@ == k,
        },
{
    let target = target_path();
    let mut out: Vec<Vec<String>> = Vec::new();
    let mut i: usize = 0;
    assert(out.deep_view() =~= Seq::<Seq<Seq<char>>>::empty());
    while i < keys.len()
        invariant
            i <= keys.len(),
            target.deep_view() == seq!["target"@],
            platform_tables(*doc, keys.deep_view().subrange(0, i as int)) == Ok::<Seq<Seq<Seq<char>>>, Seq<char>>(out.deep_view()),
        decreases keys.len() - i,
    {
        let ghost sub = keys.deep_view().subrange(0, i + 1);
        assert(sub.drop_last() =~= keys.deep_view().subrange(0, i as int));
        assert(sub.last() == keys[i as int]@);
        let path = extended(&target, &keys[i]);
        assert(path.deep_view() =~= seq!["target"@, keys[i as int]@]);
        match keys_at(doc, &path) {
            None => {},
            Some(inner) => {
                match tables_in(doc, &path, &inner) {
                    Err(k) => {
                        proof {
                            lemma_platform_error_persists(*doc, keys.deep_view(), i + 1, k@);
                        }
                        return Err(k);
                    },
                    Ok(found) => {
                        append_paths(&mut out, found);
                    },
                }
            },
        }
        i = i + 1;
    }
    assert(keys.deep_view().subrange(0, keys.len() as int) =~= keys.deep_view());
    Ok(out)
}

/// The paths of all dependency tables of `doc`, in document order; or the first key that should
/// hold a table and does not.
pub fn get_dependency_tables(doc: &DocumentMut) -> (r: Result<Vec<Vec<String>>, String>)
    ensures
        match dependency_tables(*doc) {
            Ok(ps) => r is Ok && r->Ok_0.deep_view() == ps,
            Err(k) => r is Err && r->Err_0@ == k,
        },
{
    let root: Vec<String> = Vec::new();
    assert(root.deep_view() =~= Seq::<Seq<char>>::empty());
    let keys = match keys_at(doc, &root) {
        None => return Ok(Vec::new()),
        Some(keys) => keys,
    };
    let mut out: Vec<Vec<String>> = Vec::new();
    let mut i: usize = 0;
    assert(out.deep_view() =~= Seq::<Seq<Seq<char>>>::empty());
    while i < keys.len()
        invariant
            i <= keys.len(),
            root.deep_view() == Seq::<Seq<char>>::empty(),
            table_keys(*doc, Seq::empty()) == Some(keys.deep_view()),
            top_tables(*doc, keys.deep_view().subrange(0, i as int)) == Ok::<Seq<Seq<Seq<char>>>, Seq<char>>(out.deep_view()),
        decreases keys.len() - i,
    {
        let ghost sub = keys.deep_view().subrange(0, i + 1);
        assert(sub.drop_last() =~= keys.deep_view().subrange(0, i as int));
        assert(sub.last() == keys[i as int]@);
        if is_dependency_table(keys[i].as_str()) {
            let path = extended(&root, &keys[i]);
            assert(path.deep_view() =~= seq![keys[i as int]@]);
            match keys_at(doc, &path) {
                None => {
                    proof {
                        lemma_top_error_persists(*doc, keys.deep_view(), i + 1, keys[i as int]@);
                    }
                    return Err(String::from_str(keys[i].as_str()));
                },
                Some(_) => {
                    let ghost before = out.deep_view();
                    out.push(path);
                    assert(out.deep_view() =~= before.push(seq![keys[i as int]@]));
                },
            }
        } else if keys[i] == String::from_str("target") {
            let target = target_path();
            match keys_at(doc, &target) {
                None => {
                    proof {
                        lemma_top_error_persists(*doc, keys.deep_view(), i + 1, "target"@);
                    }
                    return Err(String::from_str("target"));
                },
                Some(platforms) => {
                    match platform_tables_in(doc, &platforms) {
                        Err(k) => {
                            proof {
                                lemma_top_error_persists(*doc, keys.deep_view(), i + 1, k@);
                            }
                            return Err(k);
                        },
                        Ok(found) => {
                            append_paths(&mut out, found);
                        },
                    }
                },
            }
        }
        i = i + 1;
    }
    assert(keys.deep_view().subrange(0, keys.len() as int) =~= keys.deep_view());
    Ok(out)
}

/// The shape of a dependency table's path: `[name]`, or `["target", platform, name]`.
pub open spec fn is_table_path(p: Seq<Seq<char>>) -> bool {
    (p.len() == 1 && is_dependency_table_name(p[0])) || (p.len() == 3 && p[0] == "target"@
        && is_dependency_table_name(p[2]))
}

proof fn lemma_among_shapes(doc: DocumentMut, prefix: Seq<Seq<char>>, keys: Seq<Seq<char>>)
    ensures
        tables_among(doc, prefix, keys) is Ok ==> forall|j: int|
            0 <= j < tables_among(doc, prefix, keys)->Ok_0.len() ==> {
                let p = #[trigger] tables_among(doc, prefix, keys)->Ok_0[j];
                p.len() == prefix.len() + 1 && p.subrange(0, prefix.len() as int) == prefix
                    && is_dependency_table_name(p.last())
            },
    decreases keys.len(),
{
    if keys.len() > 0 {
        lemma_among_shapes(doc, prefix, keys.drop_last());
        let k = keys.last();
        assert(prefix.push(k).subrange(0, prefix.len() as int) =~= prefix);
    }
}

proof fn lemma_platform_shapes(doc: DocumentMut, keys: Seq<Seq<char>>)
    ensures
        platform_tables(doc, keys) is Ok ==> forall|j: int|
            0 <= j < platform_tables(doc, keys)->Ok_0.len() ==> is_table_path(
                #[trigger] platform_tables(doc, keys)->Ok_0[j],
            ),
    decreases keys.len(),
{
    if keys.len() > 0 {
        lemma_platform_shapes(doc, keys.drop_last());
        let k = keys.last();
        let prefix = seq!["target"@, k];
        match table_keys(doc, prefix) {
            None => {},
            Some(ks) => {
                lemma_among_shapes(doc, prefix, ks);
                if platform_tables(doc, keys) is Ok && platform_tables(doc, keys.drop_last()) is Ok {
                    let ps = platform_tables(doc, keys.drop_last())->Ok_0;
                    let qs = tables_among(doc, prefix, ks)->Ok_0;
                    assert forall|j: int| 0 <= j < qs.len() implies is_table_path(#[trigger] qs[j]) by {
                        let p = qs[j];
                        assert(p.subrange(0, 2)[0] == prefix[0]);
                    }
                    assert forall|j: int| 0 <= j < (ps + qs).len() implies is_table_path(#[trigger] (ps + qs)[j]) by {
                        if j >= ps.len() {
                            assert((ps + qs)[j] == qs[j - ps.len()]);
                        }
                    }
                }
            },
        }
    }
}

proof fn lemma_top_shapes(doc: DocumentMut, keys: Seq<Seq<char>>)
    ensures
        top_tables(doc, keys) is Ok ==> forall|j: int|
            0 <= j < top_tables(doc, keys)->Ok_0.len() ==> is_table_path(#[trigger] top_tables(doc, keys)->Ok_0[j]),
    decreases keys.len(),
{
    if keys.len() > 0 {
        lemma_top_shapes(doc, keys.drop_last());
        let k = keys.last();
        match table_keys(doc, seq!["target"@]) {
            None => {},
            Some(ts) => {
                lemma_platform_shapes(doc, ts);
                if top_tables(doc, keys) is Ok && top_tables(doc, keys.drop_last()) is Ok && !is_dependency_table_name(k) && k == "target"@ {
                    let ps = top_tables(doc, keys.drop_last())->Ok_0;
                    let qs = platform_tables(doc, ts)->Ok_0;
                    assert forall|j: int| 0 <= j < (ps + qs).len() implies is_table_path(#[trigger] (ps + qs)[j]) by {
                        if j >= ps.len() {
                            assert((ps + qs)[j] == qs[j - ps.len()]);
                        }
                    }
                }
            },
        }
    }
}

/// Every path of `dependency_tables` has the shape of a dependency table's path.
pub proof fn lemma_table_shapes(doc: DocumentMut)
    ensures
        dependency_tables(doc) is Ok ==> forall|j: int|
            0 <= j < dependency_tables(doc)->Ok_0.len() ==> is_table_path(#[trigger] dependency_tables(doc)->Ok_0[j]),
{
    match table_keys(doc, Seq::empty()) {
        None => {},
        Some(keys) => lemma_top_shapes(doc, keys),
    }
}

/// Removing `key` from the table at `path` leaves the keys of the table at `p` as they were.
proof fn lemma_independent(path: Seq<Seq<char>>, p: Seq<Seq<char>>, key: Seq<char>)
    requires
        is_table_path(path),
        is_table_path(p),
        p != path,
    ensures
        !is_prefix(path.push(key), p),
{
    reveal_strlit("target");
    reveal_strlit("dependencies");
    reveal_strlit("build-dependencies");
    reveal_strlit("dev-dependencies");
    if is_prefix(path.push(key), p) {
        assert(path.len() == 1);
        assert(p.subrange(0, 2)[0] == path.push(key)[0]);
        assert(p[0] == path[0]);
    }
}

/// `keys` without any of `deps`.
pub open spec fn without_all(keys: Seq<Seq<char>>, deps: Seq<Seq<char>>) -> Seq<Seq<char>>
    decreases deps.len(),
{
    if deps.len() == 0 {
        keys
    } else {
        without(without_all(keys, deps.drop_last()), deps.last())
    }
}

/// The keys of a table, if there is one, without any of `deps`.
pub open spec fn opt_without(keys: Option<Seq<Seq<char>>>, deps: Seq<Seq<char>>) -> Option<Seq<Seq<char>>> {
    match keys {
        None => None,
        Some(ks) => Some(without_all(ks, deps)),
    }
}

proof fn lemma_without(keys: Seq<Seq<char>>, key: Seq<char>)
    ensures
        forall|x: Seq<char>| #[trigger] without(keys, key).contains(x) <==> keys.contains(x) && x != key,
        !keys.contains(key) ==> without(keys, key) == keys,
    decreases keys.len(),
{
    broadcast use vstd::seq_lib::group_filter_ensures;
    let pred = other_than(key);
    assert forall|x: Seq<char>| #[trigger] without(keys, key).contains(x) implies keys.contains(x) && x != key by {
        keys.lemma_filter_contains_rev(pred, x);
        let i = choose|i: int| 0 <= i < keys.filter(pred).len() && keys.filter(pred)[i] == x;
        keys.lemma_filter_pred(pred, i);
    }
    assert forall|x: Seq<char>| keys.contains(x) && x != key implies #[trigger] without(keys, key).contains(x) by {
        let i = choose|i: int| 0 <= i < keys.len() && keys[i] == x;
        keys.lemma_filter_contains(pred, i);
    }
    if !keys.contains(key) && keys.len() > 0 {
        lemma_without(keys.drop_last(), key);
        reveal(Seq::filter);
        assert(!keys.drop_last().contains(key)) by {
            if keys.drop_last().contains(key) {
                let i = choose|i: int| 0 <= i < keys.drop_last().len() && keys.drop_last()[i] == key;
                assert(keys[i] == key);
            }
        }
        assert(keys.last() != key) by {
            if keys.last() == key {
                assert(keys[keys.len() - 1] == key);
            }
        }
        assert(keys.drop_last().push(keys.last()) =~= keys);
    }
    if keys.len() == 0 {
        reveal(Seq::filter);
        assert(without(keys, key) =~= keys);
    }
}

proof fn lemma_without_all_contains(keys: Seq<Seq<char>>, deps: Seq<Seq<char>>, x: Seq<char>)
    ensures
        without_all(keys, deps).contains(x) <==> keys.contains(x) && !deps.contains(x),
    decreases deps.len(),
{
    if deps.len() > 0 {
        lemma_without_all_contains(keys, deps.drop_last(), x);
        lemma_without(without_all(keys, deps.drop_last()), deps.last());
        if deps.contains(x) && !deps.drop_last().contains(x) {
            let i = choose|i: int| 0 <= i < deps.len() && deps[i] == x;
            if i < deps.len() - 1 {
                assert(deps.drop_last()[i] == x);
            }
        }
        if deps.drop_last().contains(x) {
            let i = choose|i: int| 0 <= i < deps.drop_last().len() && deps.drop_last()[i] == x;
            assert(deps[i] == x);
        }
        if x == deps.last() {
            assert(deps[deps.len() - 1] == x);
        }
    }
}

/// The table at `p` holds `key`.
pub open spec fn holds(doc: DocumentMut, p: Seq<Seq<char>>, key: Seq<char>) -> bool {
    table_keys(doc, p) is Some && table_keys(doc, p)->Some_0.contains(key)
}

/// `p` lies under an entry that removing `deps` from the tables at `paths` takes out.
pub open spec fn under_removed(paths: Seq<Seq<Seq<char>>>, deps: Seq<Seq<char>>, p: Seq<Seq<char>>) -> bool {
    exists|j: int, i: int| 0 <= j < paths.len() && 0 <= i < deps.len() && is_prefix(#[trigger] paths[j].push(#[trigger] deps[i]), p)
}

/// The dependency at `i` of `deps` is in none of the tables at `paths` when its turn comes:
/// no table holds it, or an earlier entry of `deps` already removed it.
pub open spec fn missing_at(doc: DocumentMut, paths: Seq<Seq<Seq<char>>>, deps: Seq<Seq<char>>, i: int) -> bool {
    !(exists|j: int| 0 <= j < paths.len() && holds(doc, #[trigger] paths[j], deps[i])) || deps.subrange(
        0,
        i,
    ).contains(deps[i])
}

fn remove_each(doc: &mut DocumentMut, paths: &Vec<Vec<String>>, deps: &[String]) -> (r: Option<usize>)
    requires
        forall|j: int| 0 <= j < paths.deep_view().len() ==> is_table_path(#[trigger] paths.deep_view()[j]),
    ensures
        r is None ==> forall|i: int| 0 <= i < deps.len() ==> !missing_at(*old(doc), paths.deep_view(), deps.deep_view(), i),
        r is None ==> forall|j: int|
            0 <= j < paths.len() ==> table_keys(*final(doc), #[trigger] paths.deep_view()[j]) == opt_without(
                table_keys(*old(doc), paths.deep_view()[j]),
                deps.deep_view(),
            ),
        r is None ==> forall|p: Seq<Seq<char>>|
            !paths.deep_view().contains(p) && !under_removed(paths.deep_view(), deps.deep_view(), p)
                ==> #[trigger] table_keys(*final(doc), p) == table_keys(*old(doc), p),
        r is Some ==> r->Some_0 < deps.len() && missing_at(*old(doc), paths.deep_view(), deps.deep_view(), r->Some_0 as int)
            && forall|i: int| 0 <= i < r->Some_0 ==> !missing_at(*old(doc), paths.deep_view(), deps.deep_view(), i),
{
    let ghost d0 = *doc;
    let ghost pv = paths.deep_view();
    let ghost dv = deps.deep_view();
    let mut i: usize = 0;
    assert(dv.subrange(0, 0) =~= Seq::<Seq<char>>::empty());
    while i < deps.len()
        invariant
            i <= deps.len(),
            d0 == *old(doc),
            pv == paths.deep_view(),
            dv == deps.deep_view(),
            forall|j: int| 0 <= j < pv.len() ==> is_table_path(#[trigger] pv[j]),
            forall|a: int| 0 <= a < i ==> !missing_at(d0, pv, dv, a),
            forall|p: Seq<Seq<char>>| !pv.contains(p) && !under_removed(pv, dv, p) ==> #[trigger] table_keys(*doc, p) == table_keys(d0, p),
            forall|p: Seq<Seq<char>>| pv.contains(p) ==> #[trigger] table_keys(*doc, p) == opt_without(table_keys(d0, p), dv.subrange(0, i as int)),
        decreases deps.len() - i,
    {
        let ghost dep = dv[i as int];
        let ghost before = dv.subrange(0, i as int);
        let ghost after = dv.subrange(0, i + 1);
        assert(after.drop_last() =~= before);
        assert(after.last() == dep);
        let mut removed_one = false;
        let mut j: usize = 0;
        while j < paths.len()
            invariant
                i < deps.len(),
                j <= paths.len(),
                d0 == *old(doc),
                pv == paths.deep_view(),
                dv == deps.deep_view(),
                dep == dv[i as int],
                before == dv.subrange(0, i as int),
                after == dv.subrange(0, i + 1),
                after.drop_last() == before,
                after.last() == dep,
                forall|q: int| 0 <= q < pv.len() ==> is_table_path(#[trigger] pv[q]),
                forall|p: Seq<Seq<char>>| pv.contains(p) ==> #[trigger] table_keys(*doc, p) == opt_without(
                    table_keys(d0, p),
                    if pv.subrange(0, j as int).contains(p) { after } else { before },
                ),
                removed_one == exists|q: int| 0 <= q < j && holds(d0, #[trigger] pv[q], dep) && !before.contains(dep),
                forall|p: Seq<Seq<char>>| !pv.contains(p) && !under_removed(pv, dv, p) ==> #[trigger] table_keys(*doc, p) == table_keys(d0, p),
            decreases paths.len() - j,
        {
            let ghost dj = *doc;
            let ghost pj = pv[j as int];
            assert(pj == paths[j as int].deep_view());
            let hit = remove_at(doc, &paths[j], deps[i].as_str());
            proof {
                assert(pv.contains(pj)) by { assert(pv[j as int] == pj); }
                assert forall|p: Seq<Seq<char>>| !pv.contains(p) && !under_removed(pv, dv, p) implies #[trigger] table_keys(*doc, p) == table_keys(d0, p) by {
                    assert(p != pj);
                    if is_prefix(pj.push(dep), p) {
                        assert(pv[j as int].push(dv[i as int]) == pj.push(dep));
                        assert(under_removed(pv, dv, p));
                    }
                }
                let seen = pv.subrange(0, j as int).contains(pj);
                let ks0 = table_keys(d0, pj);
                if ks0 is Some {
                    lemma_without_all_contains(ks0->Some_0, before, dep);
                    lemma_without_all_contains(ks0->Some_0, after, dep);
                    lemma_without(without_all(ks0->Some_0, after), dep);
                }
                if seen {
                    let s0 = pv.subrange(0, j as int);
                    let q = choose|q: int| 0 <= q < s0.len() && s0[q] == pj;
                    assert(pv[q] == pj);
                    assert(after.contains(dep)) by { assert(after[i as int] == dep); }
                }
                assert forall|p: Seq<Seq<char>>| pv.contains(p) implies #[trigger] table_keys(*doc, p) == opt_without(
                    table_keys(d0, p),
                    if pv.subrange(0, j + 1).contains(p) { after } else { before },
                ) by {
                    let s0 = pv.subrange(0, j as int);
                    let s1 = pv.subrange(0, j + 1);
                    assert(s1.contains(p) <==> (s0.contains(p) || p == pj)) by {
                        if s1.contains(p) {
                            let q = choose|q: int| 0 <= q < s1.len() && s1[q] == p;
                            if q < j {
                                assert(s0[q] == p);
                            }
                        }
                        if s0.contains(p) {
                            let q = choose|q: int| 0 <= q < s0.len() && s0[q] == p;
                            assert(s1[q] == p);
                        }
                        if p == pj {
                            assert(s1[j as int] == p);
                        }
                    }
                    if p != pj {
                        let q = choose|q: int| 0 <= q < pv.len() && pv[q] == p;
                        lemma_independent(pj, p, dep);
                    }
                }
                assert(removed_one || hit <==> exists|q: int| 0 <= q < j + 1 && holds(d0, #[trigger] pv[q], dep) && !before.contains(dep)) by {
                    if hit {
                        assert(holds(d0, pv[j as int], dep) && !before.contains(dep));
                    }
                    if exists|q: int| 0 <= q < j + 1 && holds(d0, #[trigger] pv[q], dep) && !before.contains(dep) {
                        let q = choose|q: int| 0 <= q < j + 1 && holds(d0, #[trigger] pv[q], dep) && !before.contains(dep);
                        if q == j && !removed_one {
                            assert(!seen) by {
                                if seen {
                                    let s0 = pv.subrange(0, j as int);
                                    let q2 = choose|q2: int| 0 <= q2 < s0.len() && s0[q2] == pj;
                                    assert(pv[q2] == pj);
                                    assert(holds(d0, pv[q2], dep));
                                }
                            }
                            assert(hit);
                        }
                    }
                }
            }
            removed_one = removed_one || hit;
            j = j + 1;
        }
        assert(pv.subrange(0, pv.len() as int) =~= pv);
        if !removed_one {
            assert(missing_at(d0, pv, dv, i as int));
            return Some(i);
        }
        assert(!missing_at(d0, pv, dv, i as int));
        i = i + 1;
    }
    assert(dv.subrange(0, dv.len() as int) =~= dv);
    assert forall|j: int| 0 <= j < paths.len() implies table_keys(*doc, #[trigger] paths.deep_view()[j]) == opt_without(
        table_keys(d0, paths.deep_view()[j]),
        deps.deep_view(),
    ) by {
        assert(pv.contains(pv[j]));
    }
    None
}

/// The names of the tables at `paths`: the last key of each.
pub open spec fn table_names(paths: Seq<Seq<Seq<char>>>) -> Seq<Seq<char>> {
    paths.map_values(|p: Seq<Seq<char>>| p.last())
}

fn names_of(paths: &Vec<Vec<String>>) -> (r: Vec<String>)
    requires
        forall|j: int| 0 <= j < paths.deep_view().len() ==> is_table_path(#[trigger] paths.deep_view()[j]),
    ensures
        r.deep_view() == table_names(paths.deep_view()),
{
    let mut r: Vec<String> = Vec::new();
    let mut j: usize = 0;
    while j < paths.len()
        invariant
            j <= paths.len(),
            forall|q: int| 0 <= q < paths.deep_view().len() ==> is_table_path(#[trigger] paths.deep_view()[q]),
            r.deep_view() == table_names(paths.deep_view().subrange(0, j as int)),
        decreases paths.len() - j,
    {
        assert(paths.deep_view()[j as int] == paths[j as int].deep_view());
        assert(is_table_path(paths.deep_view()[j as int]));
        let last = paths[j].len() - 1;
        let ghost before = r.deep_view();
        r.push(String::from_str(paths[j][last].as_str()));
        assert(r.deep_view() =~= before.push(paths[j as int][last as int]@));
        assert(r.deep_view() =~= table_names(paths.deep_view().subrange(0, j + 1)));
        j = j + 1;
    }
    assert(paths.deep_view().subrange(0, paths.len() as int) =~= paths.deep_view());
    r
}

/// The entry at `i` is the first of `deps` that is missing when its turn comes.
pub open spec fn first_missing(doc: DocumentMut, paths: Seq<Seq<Seq<char>>>, deps: Seq<Seq<char>>, i: int) -> bool {
    0 <= i < deps.len() && missing_at(doc, paths, deps, i) && forall|a: int| 0 <= a < i ==> !missing_at(doc, paths, deps, a)
}

/// What removing `deps` from `doc`, whose dependency tables are at `paths`, gives.
pub open spec fn removal_result(doc: DocumentMut, paths: Seq<Seq<Seq<char>>>, deps: Seq<Seq<char>>, after: DocumentMut, r: Result<(), FixError>) -> bool {
    if forall|i: int| 0 <= i < deps.len() ==> !missing_at(doc, paths, deps, i) {
        &&& r is Ok
        &&& forall|j: int| 0 <= j < paths.len() ==> table_keys(after, #[trigger] paths[j]) == opt_without(table_keys(doc, paths[j]), deps)
        &&& forall|p: Seq<Seq<char>>| !paths.contains(p) && !under_removed(paths, deps, p) ==> #[trigger] table_keys(after, p) == table_keys(doc, p)
    } else {
        match r {
            Err(FixError::NotFound { dep, tables }) => exists|i: int| first_missing(doc, paths, deps, i) && dep@ == deps[i]
                && tables.deep_view() == table_names(paths),
            _ => false,
        }
    }
}

/// Removes each of `dependency_list` from every dependency table of `doc`, in turn. Fails where
/// a dependency table is not a table, before anything is removed, or where an entry of the
/// list is in none of the tables when its turn comes.
pub fn remove_from_document(doc: &mut DocumentMut, dependency_list: &[String]) -> (r: Result<(), FixError>)
    ensures
        match dependency_tables(*old(doc)) {
            Err(k) => *final(doc) == *old(doc) && match r {
                Err(FixError::NotATable(name)) => name@ == k,
                _ => false,
            },
            Ok(paths) => removal_result(*old(doc), paths, dependency_list.deep_view(), *final(doc), r),
        },
{
    let paths = match get_dependency_tables(doc) {
        Err(k) => return Err(FixError::NotATable(k)),
        Ok(paths) => paths,
    };
    proof {
        lemma_table_shapes(*doc);
    }
    let ghost d0 = *doc;
    match remove_each(doc, &paths, dependency_list) {
        None => Ok(()),
        Some(i) => {
            let tables = names_of(&paths);
            assert(first_missing(d0, paths.deep_view(), dependency_list.deep_view(), i as int));
            Err(FixError::NotFound { dep: String::from_str(dependency_list[i].as_str()), tables })
        },
    }
}

/// The result of a removal, as a text result.
pub open spec fn unit_of(r: Result<String, FixError>) -> Result<(), FixError> {
    match r {
        Ok(_) => Ok(()),
        Err(e) => Err(e),
    }
}

/// What removing `deps` from `before`, leaving `after`, gives as text.
pub open spec fn text_removal(before: DocumentMut, deps: Seq<Seq<char>>, after: DocumentMut, r: Result<String, FixError>) -> bool {
    match dependency_tables(before) {
        Err(k) => match r {
            Err(FixError::NotATable(name)) => name@ == k,
            _ => false,
        },
        Ok(paths) => removal_result(before, paths, deps, after, unit_of(r)) && (r is Ok ==> r->Ok_0@ == toml_text(after)),
    }
}

/// Removes each of `dependency_list` from every dependency table of the manifest text
/// `manifest`, and gives the text back with its formatting kept.
pub fn remove_dependencies(manifest: &str, dependency_list: &[String]) -> (r: Result<String, FixError>)
    ensures
        (r is Err && r->Err_0 is Parse) <==> !toml_parses(manifest@),
        toml_parses(manifest@) ==> exists|before: DocumentMut, after: DocumentMut|
            (forall|p: Seq<Seq<char>>| #[trigger] table_keys(before, p) == parsed_keys(manifest@, p))
                && text_removal(before, dependency_list.deep_view(), after, r),
{
    let mut doc = match parse_document(manifest) {
        Ok(d) => d,
        Err(_) => return Err(FixError::Parse),
    };
    let ghost before = doc;
    let res = remove_from_document(&mut doc, dependency_list);
    let r = match res {
        Ok(()) => Ok(document_text(&doc)),
        Err(e) => Err(e),
    };
    assert(text_removal(before, dependency_list.deep_view(), doc, r));
    r
}

} // verus!
