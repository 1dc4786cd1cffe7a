//! The map from declared dependency keys to the identifiers that source code uses.
use vstd::prelude::*;

verus! {

/// One declared dependency: the key it is declared under, and the crate identifier that
/// source code uses for it.
#[derive(Debug)]
pub struct Dependency {
    pub key: String,
    pub ident: String,
}

/// `c`, with `-` written as `_`.
pub open spec fn underscore(c: char) -> char {
    if c == '-' {
        '_'
    } else {
        c
    }
}

/// A declared key with every `-` replaced by `_`: the identifier a crate gets by default.
pub open spec fn normalized(key: Seq<char>) -> Seq<char> {
    key.map_values(|c: char| underscore(c))
}

/// Relies on `str::replace`, which replaces every `-` by `_` and keeps the other characters.
#[verifier::external_body]
fn replace_hyphens(s: &str) -> (r: String)
    ensures
        r@ == normalized(s@),
{
    s.replace('-', "_")
}

/// Declared dependencies keyed by their declared key, each key at most once.
pub struct DependencyMap {
    entries: Vec<Dependency>,
}

impl View for DependencyMap {
    type V = Map<Seq<char>, Seq<char>>;

    closed spec fn view(&self) -> Map<Seq<char>, Seq<char>> {
        Map::new(
            |k: Seq<char>| exists|i: int| 0 <= i < self.entries@.len() && self.entries@[i].key@ == k,
            |k: Seq<char>|
                self.entries@[choose|i: int|
                    0 <= i < self.entries@.len() && self.entries@[i].key@ == k].ident@,
        )
    }
}

impl DependencyMap {
    /// No key occurs twice.
    pub closed spec fn wf(&self) -> bool {
        forall|i: int, j: int|
            0 <= i < self.entries@.len() && 0 <= j < self.entries@.len() && i != j
                ==> self.entries@[i].key@ != self.entries@[j].key@
    }

    /// The number of entries.
    pub closed spec fn spec_len(&self) -> nat {
        self.entries@.len()
    }

    /// The key of the entry at `i`.
    pub closed spec fn key_at(&self, i: int) -> Seq<char> {
        self.entries@[i].key@
    }

    proof fn lemma_entry(&self, i: int)
        requires
            self.wf(),
            0 <= i < self.entries@.len(),
        ensures
            self@.contains_key(self.entries@[i].key@),
            self@[self.entries@[i].key@] == self.entries@[i].ident@,
    {
        let k = self.entries@[i].key@;
        assert(self@.contains_key(k));
        let j = choose|j: int| 0 <= j < self.entries@.len() && self.entries@[j].key@ == k;
        assert(j == i);
    }

    /// Every key of the map is the key of some entry, and the entries are its keys.
    pub proof fn lemma_keys(&self)
        requires
            self.wf(),
        ensures
            forall|i: int| 0 <= i < self.spec_len() ==> self@.contains_key(#[trigger] self.key_at(i)),
            forall|k: Seq<char>|
                self@.contains_key(k) ==> exists|i: int| 0 <= i < self.spec_len() && self.key_at(i) == k,
    {
        assert forall|i: int| 0 <= i < self.spec_len() implies self@.contains_key(#[trigger] self.key_at(i)) by {
            self.lemma_entry(i);
        }
        assert forall|k: Seq<char>| self@.contains_key(k) implies exists|i: int| 0 <= i < self.spec_len() && self.key_at(i) == k by {
            let i = choose|i: int| 0 <= i < self.entries@.len() && self.entries@[i].key@ == k;
            assert(self.key_at(i) == k);
        }
    }

    /// Entries at different places have different keys.
    pub proof fn lemma_distinct(&self, a: int, b: int)
        requires
            self.wf(),
            0 <= a < self.spec_len(),
            0 <= b < self.spec_len(),
            a != b,
        ensures
            self.key_at(a) != self.key_at(b),
    {
    }

    /// The empty map.
    pub fn new() -> (r: DependencyMap)
        ensures
            r.wf(),
            r@ == Map::<Seq<char>, Seq<char>>::empty(),
    {
        let r = DependencyMap { entries: Vec::new() };
        assert(r@ =~= Map::<Seq<char>, Seq<char>>::empty());
        r
    }

    fn position(&self, key: &String) -> (r: Option<usize>)
        ensures
            r is Some ==> r->Some_0 < self.entries@.len() && self.entries@[r->Some_0 as int].key@ == key@,
            r is None ==> forall|j: int| 0 <= j < self.entries@.len() ==> self.entries@[j].key@ != key@,
    {
        let mut i: usize = 0;
        while i < self.entries.len()
            invariant
                i <= self.entries@.len(),
                forall|j: int| 0 <= j < i ==> self.entries@[j].key@ != key@,
            decreases self.entries@.len() - i,
        {
            if self.entries[i].key == *key {
                return Some(i);
            }
            i = i + 1;
        }
        None
    }

    /// Maps `key` to `ident`, in place of what `key` mapped to before.
    pub fn insert(&mut self, key: String, ident: String)
        requires
            old(self).wf(),
        ensures
            final(self).wf(),
            final(self)@ == old(self)@.insert(key@, ident@),
    {
        let ghost before = self@;
        let ghost old_entries = self.entries@;
        let pos = self.position(&key);
        let ghost i: int = match pos { Some(p) => p as int, None => old_entries.len() as int };
        match pos {
            Some(p) => {
                self.entries.set(p, Dependency { key, ident });
            },
            None => {
                self.entries.push(Dependency { key, ident });
            },
        }
        proof {
            let n = self.entries@.len();
            assert(self.entries@[i].key@ == key@);
            assert forall|j: int| 0 <= j < n && j != i implies self.entries@[j] == old_entries[j] by {}
            assert(self.wf());
            assert forall|k: Seq<char>| #[trigger] self@.contains_key(k) <==> before.insert(key@, ident@).contains_key(k) by {
                if k != key@ && before.contains_key(k) {
                    let j = choose|j: int| 0 <= j < old_entries.len() && old_entries[j].key@ == k;
                    assert(j != i);
                    assert(self.entries@[j].key@ == k);
                }
                if k == key@ {
                    assert(self.entries@[i].key@ == k);
                }
                if k != key@ && self@.contains_key(k) {
                    let j = choose|j: int| 0 <= j < n && self.entries@[j].key@ == k;
                    assert(j != i);
                    assert(old_entries[j].key@ == k);
                }
            }
            assert forall|k: Seq<char>| self@.contains_key(k) implies #[trigger] self@[k] == before.insert(key@, ident@)[k] by {
                let j = choose|j: int| 0 <= j < n && self.entries@[j].key@ == k;
                self.lemma_entry(j);
                if k != key@ {
                    assert(j != i);
                    assert(old_entries[j] == self.entries@[j]);
                    assert(before.contains_key(k));
                    let m = choose|m: int| 0 <= m < old_entries.len() && old_entries[m].key@ == k;
                    assert(m == j);
                }
            }
            assert(self@ =~= before.insert(key@, ident@));
        }
    }

    /// The number of entries.
    pub fn len(&self) -> (r: usize)
        ensures
            r == self.spec_len(),
    {
        self.entries.len()
    }

    /// The entry at `i`: its key, and the identifier that the map gives that key.
    pub fn get(&self, i: usize) -> (r: &Dependency)
        requires
            self.wf(),
            i < self.spec_len(),
        ensures
            r.key@ == self.key_at(i as int),
            self@.contains_key(r.key@),
            self@[r.key@] == r.ident@,
    {
        proof {
            self.lemma_entry(i as int);
        }
        &self.entries[i]
    }
}

/// The map of manifest-only mode: each declared key to its key with `-` replaced by `_`.
pub open spec fn manifest_map(keys: Seq<Seq<char>>) -> Map<Seq<char>, Seq<char>> {
    Map::new(|k: Seq<char>| keys.contains(k), |k: Seq<char>| normalized(k))
}

/// Maps each declared key to the identifier that source code uses by default.
pub fn manifest_dependencies(keys: &Vec<String>) -> (r: DependencyMap)
    ensures
        r.wf(),
        r@ == manifest_map(keys.deep_view()),
{
    let mut r = DependencyMap::new();
    let mut i: usize = 0;
    while i < keys.len()
        invariant
            i <= keys.len(),
            r.wf(),
            r@ == manifest_map(keys.deep_view().subrange(0, i as int)),
        decreases keys.len() - i,
    {
        let ident = replace_hyphens(keys[i].as_str());
        r.insert(keys[i].clone(), ident);
        proof {
            let s = keys.deep_view().subrange(0, i + 1);
            assert(s =~= keys.deep_view().subrange(0, i as int).push(keys[i as int]@));
            let t = keys.deep_view().subrange(0, i as int);
            assert forall|k: Seq<char>| s.contains(k) <==> (t.contains(k) || k == keys[i as int]@) by {
                if s.contains(k) {
                    let j = choose|j: int| 0 <= j < s.len() && s[j] == k;
                    if j < i {
                        assert(t[j] == k);
                    }
                }
                if t.contains(k) {
                    let j = choose|j: int| 0 <= j < t.len() && t[j] == k;
                    assert(s[j] == k);
                }
                if k == keys[i as int]@ {
                    assert(s[i as int] == k);
                }
            }
            assert(r@ =~= manifest_map(s));
        }
        i = i + 1;
    }
    assert(keys.deep_view().subrange(0, keys.len() as int) =~= keys.deep_view());
    r
}

} // verus!
