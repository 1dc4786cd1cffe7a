//! Searching source text for a reference to one crate.
//!
//! A search runs in two phases: a line-by-line pattern first, then, if that found nothing, a
//! pattern for grouped `use { … };` statements that may span several lines. A matched region
//! whose text, once leading whitespace is skipped, starts with `//` is a comment and does not
//! count.
use crate::pattern::{group_pattern, line_pattern, make_line_regexp, make_multiline_regexp};
use grep::regex::{RegexMatcher, RegexMatcherBuilder};
use grep::searcher::{sinks, BinaryDetection, SearcherBuilder};
use grep::matcher::LineTerminator;
use vstd::prelude::*;
use vstd::string::{StrSliceExecFns, StringSliceAdditionalSpecFns};
use vstd::utf8::{decode_utf8, valid_utf8};

verus! {

#[verifier::external_type_specification]
#[verifier::external_body]
pub struct ExRegexMatcher(RegexMatcher);

#[verifier::external_type_specification]
#[verifier::external_body]
pub struct ExRegexError(grep::regex::Error);

/// A regular expression compiled for line-by-line search.
pub struct LineMatcher {
    inner: RegexMatcher,
}

/// A regular expression compiled for search across line boundaries.
pub struct GroupMatcher {
    inner: RegexMatcher,
}

/// The pattern that a line matcher was compiled from.
pub uninterp spec fn line_source(m: LineMatcher) -> Seq<char>;

/// The pattern that a multi-line matcher was compiled from.
pub uninterp spec fn group_source(m: GroupMatcher) -> Seq<char>;

/// Whether `pattern` compiles as a line matcher.
pub uninterp spec fn line_regex_ok(pattern: Seq<char>) -> bool;

/// Whether `pattern` compiles as a multi-line matcher.
pub uninterp spec fn group_regex_ok(pattern: Seq<char>) -> bool;

/// The regions that a line-by-line search with `pattern` reports on `content`, in order.
pub uninterp spec fn line_hits(pattern: Seq<char>, content: Seq<u8>) -> Seq<Seq<u8>>;

/// The regions that a multi-line search with `pattern` reports on `content`, in order.
pub uninterp spec fn group_hits(pattern: Seq<char>, content: Seq<u8>) -> Seq<Seq<u8>>;

/// `hit` is a non-empty run of whole lines of `content`, line terminators included.
pub open spec fn is_line_run(hit: Seq<u8>, content: Seq<u8>) -> bool {
    exists|a: int, b: int|
        0 <= a < b <= content.len() && (a == 0 || content[a - 1] == 10u8) && (b == content.len()
            || content[b - 1] == 10u8) && hit == content.subrange(a, b)
}

pub open spec fn is_ascii_bytes(content: Seq<u8>) -> bool {
    forall|i: int| 0 <= i < content.len() ==> content[i] < 128u8
}

/// Every region reported on ASCII text is a run of whole lines of it.
pub open spec fn hits_are_lines(hits: Seq<Seq<u8>>, content: Seq<u8>) -> bool {
    is_ascii_bytes(content) ==> forall|j: int|
        0 <= j < hits.len() ==> is_line_run(#[trigger] hits[j], content)
}

/// Relies on grep's `RegexMatcher::new_line_matcher`, which compiles `pattern` for matching
/// within `\n`-terminated lines.
#[verifier::external_body]
fn compile_line(pattern: &str) -> (r: Result<LineMatcher, grep::regex::Error>)
    ensures
        r is Ok <==> line_regex_ok(pattern@),
        r is Ok ==> line_source(r->Ok_0) == pattern@,
{
    match RegexMatcher::new_line_matcher(pattern) {
        Ok(inner) => Ok(LineMatcher { inner }),
        Err(e) => Err(e),
    }
}

/// Relies on grep's `RegexMatcherBuilder` with `multi_line(true)`, which compiles `pattern`
/// for matching across lines.
#[verifier::external_body]
fn compile_group(pattern: &str) -> (r: Result<GroupMatcher, grep::regex::Error>)
    ensures
        r is Ok <==> group_regex_ok(pattern@),
        r is Ok ==> group_source(r->Ok_0) == pattern@,
{
    match RegexMatcherBuilder::new().multi_line(true).build(pattern) {
        Ok(inner) => Ok(GroupMatcher { inner }),
        Err(e) => Err(e),
    }
}

/// Relies on grep's `Searcher::search_slice` with a line searcher that stops at the first NUL
/// byte: each region it reports holds the whole matching lines, terminators included. With
/// line numbers on and a sink that never fails, the search itself does not fail.
#[verifier::external_body]
fn search_lines(m: &LineMatcher, content: &[u8]) -> (r: Option<Vec<Vec<u8>>>)
    ensures
        r is Some,
        r is Some ==> r->Some_0.deep_view() == line_hits(line_source(*m), content@),
        r is Some ==> hits_are_lines(r->Some_0.deep_view(), content@),
{
    let mut searcher = SearcherBuilder::new().binary_detection(BinaryDetection::quit(b'\x00'))
        .line_terminator(LineTerminator::byte(b'\n')).line_number(true).build();
    let mut hits: Vec<Vec<u8>> = Vec::new();
    let sink = sinks::Bytes(|_, bytes: &[u8]| { hits.push(bytes.to_vec()); Ok(true) });
    match searcher.search_slice(&m.inner, content, sink) {
        Ok(()) => Some(hits),
        Err(_) => None,
    }
}

/// Relies on grep's `Searcher::search_slice` with a multi-line searcher that stops at the first
/// NUL byte: each region it reports holds the whole lines that a match spans. With line numbers
/// on and a sink that never fails, the search itself does not fail.
#[verifier::external_body]
fn search_groups(m: &GroupMatcher, content: &[u8]) -> (r: Option<Vec<Vec<u8>>>)
    ensures
        r is Some,
        r is Some ==> r->Some_0.deep_view() == group_hits(group_source(*m), content@),
        r is Some ==> hits_are_lines(r->Some_0.deep_view(), content@),
{
    let mut searcher = SearcherBuilder::new().binary_detection(BinaryDetection::quit(b'\x00'))
        .multi_line(true).line_number(true).build();
    let mut hits: Vec<Vec<u8>> = Vec::new();
    let sink = sinks::Bytes(|_, bytes: &[u8]| { hits.push(bytes.to_vec()); Ok(true) });
    match searcher.search_slice(&m.inner, content, sink) {
        Ok(()) => Some(hits),
        Err(_) => None,
    }
}

/// Relies on `String::from_utf8`: the text that `bytes` encode, if they are valid UTF-8.
#[verifier::external_body]
fn utf8_text(bytes: &[u8]) -> (r: Option<String>)
    ensures
        r is Some <==> valid_utf8(bytes@),
        r is Some ==> r->Some_0@ == decode_utf8(bytes@),
{
    String::from_utf8(bytes.to_vec()).ok()
}

/// Why a search could not give an answer.
#[derive(Clone, Copy, Debug, PartialEq, Eq)]
pub enum SearchError {
    /// A pattern did not compile.
    Pattern,
    /// A matched region is not valid UTF-8.
    NotUtf8,
}

/// The characters that Unicode gives the `White_Space` property.
pub open spec fn is_space(c: char) -> bool {
    let u = c as u32;
    (0x9 <= u <= 0xD) || u == 0x20 || u == 0x85 || u == 0xA0 || u == 0x1680 || (0x2000 <= u
        <= 0x200A) || u == 0x2028 || u == 0x2029 || u == 0x202F || u == 0x205F || u == 0x3000
}

/// `t` starts with `//` at `k`, and only whitespace comes before.
pub open spec fn comment_at(t: Seq<char>, k: int) -> bool {
    &&& 0 <= k
    &&& k + 1 < t.len()
    &&& forall|i: int| 0 <= i < k ==> is_space(#[trigger] t[i])
    &&& t[k] == '/'
    &&& t[k + 1] == '/'
}

/// The text is a line comment or a doc comment once leading whitespace is skipped.
pub open spec fn is_comment(t: Seq<char>) -> bool {
    exists|k: int| comment_at(t, k)
}

/// The outcome of going through the regions of one phase in order: the first that is not a
/// comment is a reference; one that is not UTF-8 ends the search with an error.
pub open spec fn hits_outcome(hits: Seq<Seq<u8>>) -> Result<bool, SearchError>
    decreases hits.len(),
{
    if hits.len() == 0 {
        Ok(false)
    } else if !valid_utf8(hits[0]) {
        Err(SearchError::NotUtf8)
    } else if is_comment(decode_utf8(hits[0])) {
        hits_outcome(hits.drop_first())
    } else {
        Ok(true)
    }
}

/// Both patterns for the identifier `name` compile.
pub open spec fn patterns_compile(name: Seq<char>) -> bool {
    line_regex_ok(line_pattern(name)) && group_regex_ok(group_pattern(name))
}

/// The outcome of searching `content` for the crate identifier `name`: content that holds a
/// NUL byte is binary and never refers to a crate; otherwise the line phase, and the
/// multi-line phase where the line phase found nothing.
pub open spec fn search_outcome(name: Seq<char>, content: Seq<u8>) -> Result<bool, SearchError> {
    if content.contains(0u8) {
        Ok(false)
    } else {
        match hits_outcome(line_hits(line_pattern(name), content)) {
            Ok(true) => Ok(true),
            Ok(false) => hits_outcome(group_hits(group_pattern(name), content)),
            Err(e) => Err(e),
        }
    }
}

/// Whether `content` holds a NUL byte.
pub fn has_nul(content: &[u8]) -> (r: bool)
    ensures
        r == content@.contains(0u8),
{
    let mut i: usize = 0;
    while i < content.len()
        invariant
            i <= content@.len(),
            forall|j: int| 0 <= j < i ==> content@[j] != 0u8,
        decreases content@.len() - i,
    {
        if content[i] == 0u8 {
            assert(content@[i as int] == 0u8);
            return true;
        }
        i = i + 1;
    }
    false
}

/// `content` is one line of ASCII text, without a terminator, that is a comment.
pub open spec fn is_comment_line(content: Seq<u8>) -> bool {
    &&& is_ascii_bytes(content)
    &&& !content.contains(10u8)
    &&& valid_utf8(content)
    &&& is_comment(decode_utf8(content))
}

proof fn lemma_comment_line_hits(hits: Seq<Seq<u8>>, content: Seq<u8>)
    requires
        is_comment_line(content),
        forall|j: int| 0 <= j < hits.len() ==> is_line_run(#[trigger] hits[j], content),
    ensures
        hits_outcome(hits) == Ok::<bool, SearchError>(false),
    decreases hits.len(),
{
    if hits.len() > 0 {
        assert(is_line_run(hits[0], content));
        let (a, b) = choose|a: int, b: int|
            0 <= a < b <= content.len() && (a == 0 || content[a - 1] == 10u8) && (b == content.len()
                || content[b - 1] == 10u8) && hits[0] == content.subrange(a, b);
        if a != 0 {
            assert(content.contains(10u8)) by { assert(content[a - 1] == 10u8); }
        }
        if b != content.len() {
            assert(content.contains(10u8)) by { assert(content[b - 1] == 10u8); }
        }
        assert(hits[0] =~= content);
        let rest = hits.drop_first();
        assert forall|j: int| 0 <= j < rest.len() implies is_line_run(#[trigger] rest[j], content) by {
            assert(rest[j] == hits[j + 1]);
        }
        lemma_comment_line_hits(rest, content);
    }
}

fn is_space_char(c: char) -> (r: bool)
    ensures
        r == is_space(c),
{
    let u = c as u32;
    (0x9 <= u && u <= 0xD) || u == 0x20 || u == 0x85 || u == 0xA0 || u == 0x1680 || (0x2000 <= u
        && u <= 0x200A) || u == 0x2028 || u == 0x2029 || u == 0x202F || u == 0x205F || u == 0x3000
}

/// Whether `text` is a comment: after leading whitespace it starts with `//`.
pub fn is_comment_text(text: &str) -> (r: bool)
    ensures
        r == is_comment(text@),
{
    let n = text.unicode_len();
    let mut i: usize = 0;
    while i < n && is_space_char(text.get_char(i))
        invariant
            n == text@.len(),
            i <= n,
            forall|j: int| 0 <= j < i ==> is_space(#[trigger] text@[j]),
        decreases n - i,
    {
        i = i + 1;
    }
    if i < n && n - i > 1 && text.get_char(i) == '/' && text.get_char(i + 1) == '/' {
        assert(comment_at(text@, i as int));
        true
    } else {
        assert forall|k: int| !comment_at(text@, k) by {
            if comment_at(text@, k) {
                if k < i {
                    assert(is_space(text@[k]));
                } else if k > i {
                    assert(is_space(text@[i as int]));
                }
            }
        }
        false
    }
}

fn hits_result(hits: &Vec<Vec<u8>>) -> (r: Result<bool, SearchError>)
    ensures
        r == hits_outcome(hits.deep_view()),
{
    let mut i: usize = 0;
    assert(hits.deep_view().subrange(0, hits.len() as int) =~= hits.deep_view());
    while i < hits.len()
        invariant
            i <= hits.len(),
            hits_outcome(hits.deep_view()) == hits_outcome(hits.deep_view().subrange(i as int, hits.len() as int)),
        decreases hits.len() - i,
    {
        let ghost rest = hits.deep_view().subrange(i as int, hits.len() as int);
        assert(rest.drop_first() =~= hits.deep_view().subrange(i + 1, hits.len() as int));
        assert(rest[0] == hits[i as int]@);
        match utf8_text(hits[i].as_slice()) {
            None => {
                return Err(SearchError::NotUtf8);
            },
            Some(text) => {
                if !is_comment_text(text.as_str()) {
                    return Ok(true);
                }
            },
        }
        i = i + 1;
    }
    assert(hits.deep_view().subrange(i as int, hits.len() as int).len() == 0);
    Ok(false)
}


/// The compiled patterns for one crate identifier.
pub struct Search {
    name: String,
    line: LineMatcher,
    group: GroupMatcher,
}

impl Search {
    /// The crate identifier searched for.
    pub closed spec fn ident(&self) -> Seq<char> {
        self.name@
    }

    /// The patterns were compiled from the identifier.
    pub closed spec fn is_compiled(&self) -> bool {
        &&& line_source(self.line) == line_pattern(self.name@)
        &&& group_source(self.group) == group_pattern(self.name@)
    }

    /// Compiles both patterns for `crate_name`, an identifier without `-`.
    pub fn new(crate_name: &str) -> (r: Result<Search, SearchError>)
        requires
            !crate_name@.contains('-'),
        ensures
            r is Ok <==> patterns_compile(crate_name@),
            r is Ok ==> r->Ok_0.ident() == crate_name@ && r->Ok_0.is_compiled(),
            r is Err ==> r->Err_0 == SearchError::Pattern,
    {
        let line = match compile_line(make_line_regexp(crate_name).as_str()) {
            Ok(m) => m,
            Err(_) => return Err(SearchError::Pattern),
        };
        let group = match compile_group(make_multiline_regexp(crate_name).as_str()) {
            Ok(m) => m,
            Err(_) => return Err(SearchError::Pattern),
        };
        Ok(Search { name: String::from_str(crate_name), line, group })
    }

    /// Searches `content`: `Ok(true)` where it refers to the crate. Content with a NUL byte is
    /// not searched and does not refer to it; nor does a single ASCII line that is a comment.
    pub fn search_bytes(&self, content: &[u8]) -> (r: Result<bool, SearchError>)
        requires
            self.is_compiled(),
        ensures
            r == search_outcome(self.ident(), content@),
            content@.contains(0u8) ==> r == Ok::<bool, SearchError>(false),
            is_comment_line(content@) ==> r == Ok::<bool, SearchError>(false),
    {
        if has_nul(content) {
            return Ok(false);
        }
        let lines = match search_lines(&self.line, content) {
            Some(h) => h,
            None => return Ok(false),
        };
        proof {
            if is_comment_line(content@) {
                lemma_comment_line_hits(lines.deep_view(), content@);
            }
        }
        match hits_result(&lines) {
            Ok(true) => Ok(true),
            Ok(false) => {
                let groups = match search_groups(&self.group, content) {
                    Some(h) => h,
                    None => return Ok(false),
                };
                proof {
                    if is_comment_line(content@) {
                        lemma_comment_line_hits(groups.deep_view(), content@);
                    }
                }
                hits_result(&groups)
            },
            Err(e) => Err(e),
        }
    }

    /// Searches the text `s`: `Ok(true)` where it refers to the crate.
    pub fn search_string(&self, s: &str) -> (r: Result<bool, SearchError>)
        requires
            self.is_compiled(),
        ensures
            r == search_outcome(self.ident(), s.spec_bytes()),
            is_comment_line(s.spec_bytes()) ==> r == Ok::<bool, SearchError>(false),
    {
        self.search_bytes(s.as_bytes())
    }
}

/// The outcome of trying `pattern` on `content` with a multi-line search: an error where the
/// pattern does not compile, else `Ok(true)` where it matches somewhere.
pub open spec fn pattern_outcome(pattern: Seq<char>, content: Seq<u8>) -> Result<bool, SearchError> {
    if !group_regex_ok(pattern) {
        Err(SearchError::Pattern)
    } else {
        let h = group_hits(pattern, content);
        if h.len() == 0 {
            Ok(false)
        } else if valid_utf8(h[0]) {
            Ok(true)
        } else {
            Err(SearchError::NotUtf8)
        }
    }
}

/// Tries a regular expression on a text, across lines: whether it matches anywhere.
pub fn search(pattern: &str, content: &str) -> (r: Result<bool, SearchError>)
    ensures
        r == pattern_outcome(pattern@, content.spec_bytes()),
{
    let m = match compile_group(pattern) {
        Ok(m) => m,
        Err(_) => return Err(SearchError::Pattern),
    };
    match search_groups(&m, content.as_bytes()) {
        None => Ok(false),
        Some(hits) => {
            if hits.len() == 0 {
                Ok(false)
            } else {
                assert(hits.deep_view()[0] == hits[0]@);
                match utf8_text(hits[0].as_slice()) {
                    Some(_) => Ok(true),
                    None => Err(SearchError::NotUtf8),
                }
            }
        },
    }
}

} // verus!
