//! Which files of a source tree the analysis reads, in which order, and how
//! each one is routed to an extractor.

use vstd::prelude::*;
use crate::analysis::error::AnalysisError;
use crate::json::{get_member, json_document, member_value, parse_json, JsonValue};
use crate::order::{
    key_of, lemma_stable_sort_map, lemma_stable_sort_ordered, lemma_stable_sort_permutes, ordered_by, push_texts_key,
    sort_by_key, stable_sort_by, texts_key, SortKey,
};
use crate::registry::{extension, extension_of};
use crate::text::{chars_of, clone_texts, joined, owned, push_char, text_eq, views};

verus! {

/// The kinds of source file that the analysis reads.
#[derive(Debug, Clone, Copy, PartialEq, Eq, PartialOrd, Ord)]
pub enum SourceFileKind {
    Rust,
    Json,
}

/// A file found under the source root: its path below the root, as components,
/// and its kind.
#[derive(Debug, Clone, PartialEq, Eq)]
pub struct DiscoveredSource {
    pub relative_path: Vec<String>,
    pub kind: SourceFileKind,
}

pub struct DiscoveredView {
    pub relative_path: Seq<Seq<char>>,
    pub kind: SourceFileKind,
}

impl View for DiscoveredSource {
    type V = DiscoveredView;

    open spec fn view(&self) -> DiscoveredView {
        DiscoveredView { relative_path: views(self.relative_path@), kind: self.kind }
    }
}

impl SortKey for DiscoveredSource {
    open spec fn sort_key(&self) -> Seq<u32> {
        texts_key(views(self.relative_path@))
    }

    fn sort_key_exec(&self) -> (k: Vec<u32>) {
        let mut k: Vec<u32> = Vec::new();
        push_texts_key(&mut k, self.relative_path.as_slice());
        k
    }
}

pub open spec fn discovered_views(s: Seq<DiscoveredSource>) -> Seq<DiscoveredView> {
    s.map_values(|d: DiscoveredSource| d@)
}

/// The kind of a file by the extension of its name: `rs` or `json`.
pub open spec fn source_kind(name: Seq<char>) -> Option<SourceFileKind> {
    match extension(name) {
        Some(e) => if e == "rs"@ {
            Some(SourceFileKind::Rust)
        } else if e == "json"@ {
            Some(SourceFileKind::Json)
        } else {
            None
        },
        None => None,
    }
}

/// The last component of a path, or nothing for an empty path.
pub open spec fn file_name_of(path: Seq<Seq<char>>) -> Seq<char> {
    if path.len() == 0 {
        Seq::empty()
    } else {
        path.last()
    }
}

/// The files of a listing whose kind the analysis knows, in listing order.
pub open spec fn listed_sources(files: Seq<Seq<Seq<char>>>) -> Seq<DiscoveredView>
    decreases files.len(),
{
    if files.len() == 0 {
        Seq::empty()
    } else {
        let rest = listed_sources(files.drop_last());
        match source_kind(file_name_of(files.last())) {
            Some(k) => rest.push(DiscoveredView { relative_path: files.last(), kind: k }),
            None => rest,
        }
    }
}

/// Orders discovered files by path, component by component.
pub open spec fn path_key_fn() -> spec_fn(DiscoveredView) -> Seq<u32> {
    |d: DiscoveredView| texts_key(d.relative_path)
}

/// The sources of a tree, given the relative paths of its regular files.
pub open spec fn discovered(files: Seq<Seq<Seq<char>>>) -> Seq<DiscoveredView> {
    stable_sort_by(listed_sources(files), path_key_fn())
}

pub open spec fn listing_views(files: Seq<Vec<String>>) -> Seq<Seq<Seq<char>>> {
    files.map_values(|f: Vec<String>| views(f@))
}

fn kind_of_file(name: &str) -> (r: Option<SourceFileKind>)
    ensures
        r == source_kind(name@),
{
    match extension_of(name) {
        Some(e) => {
            if text_eq(e.as_str(), "rs") {
                Some(SourceFileKind::Rust)
            } else if text_eq(e.as_str(), "json") {
                Some(SourceFileKind::Json)
            } else {
                None
            }
        },
        None => None,
    }
}

/// Lists the Rust and JSON files of a source tree, ordered by path.
///
/// `listing` holds the relative paths (as components) of the tree's regular
/// files, symbolic links left out; it is `None` when `root` is not a directory,
/// which is refused.
pub fn discover_sources(root: &str, listing: Option<Vec<Vec<String>>>) -> (r: Result<
    Vec<DiscoveredSource>,
    AnalysisError,
>)
    ensures
        match listing {
            None => r matches Err(AnalysisError::InvalidSourceRoot(m)) && m@ == root@,
            Some(files) => r matches Ok(v) && discovered_views(v@) == discovered(listing_views(files@)),
        },
{
    let files = match listing {
        None => {
            return Err(AnalysisError::InvalidSourceRoot(owned(root)));
        },
        Some(f) => f,
    };
    let ghost fv = listing_views(files@);
    let mut found: Vec<DiscoveredSource> = Vec::new();
    let mut i: usize = 0;
    while i < files.len()
        invariant
            i <= files.len(),
            fv == listing_views(files@),
            discovered_views(found@) == listed_sources(fv.take(i as int)),
        decreases files.len() - i,
    {
        let path = &files[i];
        assert(fv.take(i + 1).drop_last() =~= fv.take(i as int));
        assert(fv.take(i + 1).last() == views(path@));
        let kind = if path.len() == 0 {
            None
        } else {
            kind_of_file(path[path.len() - 1].as_str())
        };
        proof {
            if path@.len() > 0 {
                assert(views(path@).last() == path@[path@.len() - 1]@);
            }
        }
        match kind {
            Some(k) => {
                let d = DiscoveredSource { relative_path: clone_texts(path), kind: k };
                found.push(d);
                assert(discovered_views(found@) =~= listed_sources(fv.take(i as int)).push(d@));
            },
            None => {},
        }
        i = i + 1;
    }
    assert(fv.take(files.len() as int) =~= fv);
    let sorted = sort_by_key(found);
    proof {
        lemma_stable_sort_map(found@, key_of::<DiscoveredSource>(), |d: DiscoveredSource| d@, path_key_fn());
    }
    Ok(sorted)
}

/// Discovered sources come out in path order, compared component by
/// component, and are exactly the listed files of a known kind.
pub proof fn law_discovered_in_path_order(files: Seq<Seq<Seq<char>>>)
    ensures
        ordered_by(discovered(files), path_key_fn()),
        discovered(files).to_multiset() == listed_sources(files).to_multiset(),
{
    lemma_stable_sort_ordered(listed_sources(files), path_key_fn());
    lemma_stable_sort_permutes(listed_sources(files), path_key_fn());
}

/// A path as a locator: its components joined with `/`, and any `\` turned
/// into `/`.
pub open spec fn locator_of(path: Seq<Seq<char>>) -> Seq<char> {
    slashed(joined(path, "/"@))
}

pub open spec fn slashed(s: Seq<char>) -> Seq<char> {
    s.map_values(|c: char| if c == '\\' { '/' } else { c })
}

pub fn relative_locator(path: &[String]) -> (r: String)
    ensures
        r@ == locator_of(views(path@)),
{
    let joined_path = crate::text::join(path, "/");
    let chars = chars_of(joined_path.as_str());
    let mut r = String::new();
    let mut i: usize = 0;
    while i < chars.len()
        invariant
            i <= chars@.len(),
            chars@ == joined_path@,
            r@ == slashed(chars@.take(i as int)),
        decreases chars.len() - i,
    {
        let c = chars[i];
        push_char(&mut r, if c == '\\' { '/' } else { c });
        assert(slashed(chars@.take(i + 1)) =~= slashed(chars@.take(i as int)).push(if c == '\\' { '/' } else { c }));
        i = i + 1;
    }
    assert(chars@.take(chars@.len() as int) =~= chars@);
    r
}

/// Index just past the last `/` among the first `n` characters, or `0`.
pub open spec fn after_last_slash(s: Seq<char>, n: int) -> int
    decreases n,
{
    if n <= 0 || n > s.len() {
        0
    } else if s[n - 1] == '/' {
        n
    } else {
        after_last_slash(s, n - 1)
    }
}

/// What follows the last `/` of a locator.
pub open spec fn locator_file_name(locator: Seq<char>) -> Seq<char> {
    locator.skip(after_last_slash(locator, locator.len() as int))
}

pub open spec fn ends_with(s: Seq<char>, suffix: Seq<char>) -> bool {
    s.len() >= suffix.len() && s.skip(s.len() - suffix.len()) == suffix
}

/// A JSON file is read as a schema when its name says so (`schema.json` or
/// `*.schema.json`) or when its document is an object with a `$schema` member.
pub open spec fn explicit_json_schema(locator: Seq<char>, document: Result<JsonValue, Seq<char>>) -> bool {
    let name = locator_file_name(locator);
    ||| name == "schema.json"@
    ||| ends_with(name, ".schema.json"@)
    ||| (document matches Ok(JsonValue::Object(ms)) && member_value(ms@, "$schema"@) is Some)
}

fn text_ends_with(s: &[char], suffix: &str) -> (r: bool)
    ensures
        r == ends_with(s@, suffix@),
{
    let t = chars_of(suffix);
    if s.len() < t.len() {
        return false;
    }
    let n: usize = s.len();
    let off = n - t.len();
    let mut i: usize = 0;
    while i < t.len()
        invariant
            i <= t@.len(),
            t@ == suffix@,
            off + t@.len() == s@.len(),
            n == s@.len(),
            off + t@.len() == n,
            forall|k: int| 0 <= k < i ==> s@[off + k] == t@[k],
        decreases t.len() - i,
    {
        assert(off + i < s@.len());
        let at: usize = off + i;
        if s[at] != t[i] {
            assert(s@.skip(off as int)[i as int] != suffix@[i as int]);
            return false;
        }
        i = i + 1;
    }
    assert(s@.skip(off as int) =~= suffix@);
    true
}

/// Whether a JSON file is read as a JSON Schema document.
pub fn is_explicit_json_schema(locator: &str, bytes: &[u8]) -> (r: bool)
    ensures
        r == explicit_json_schema(locator@, json_document(bytes@)),
{
    let chars = chars_of(locator);
    let mut n: usize = chars.len();
    while n > 0 && chars[n - 1] != '/'
        invariant
            n <= chars@.len(),
            chars@ == locator@,
            after_last_slash(locator@, locator@.len() as int) == after_last_slash(locator@, n as int),
        decreases n,
    {
        n = n - 1;
    }
    let mut name: Vec<char> = Vec::new();
    let mut k: usize = n;
    while k < chars.len()
        invariant
            n <= k <= chars@.len(),
            chars@ == locator@,
            name@ == locator@.subrange(n as int, k as int),
        decreases chars.len() - k,
    {
        name.push(chars[k]);
        assert(locator@.subrange(n as int, k + 1) =~= locator@.subrange(n as int, k as int).push(locator@[k as int]));
        k = k + 1;
    }
    assert(locator@.subrange(n as int, locator@.len() as int) =~= locator_file_name(locator@));
    let exact = text_ends_with(name.as_slice(), "schema.json") && name.len() == 11;
    proof {
        reveal_strlit("schema.json");
        if name@.len() == 11 && ends_with(name@, "schema.json"@) {
            assert(name@ =~= "schema.json"@);
        }
        if name@ == "schema.json"@ {
            assert(name@.skip(0) =~= name@);
        }
    }
    if exact || text_ends_with(name.as_slice(), ".schema.json") {
        return true;
    }
    let document = parse_json(bytes);
    match &document {
        Ok(JsonValue::Object(ms)) => get_member(ms, "$schema").is_some(),
        _ => false,
    }
}

} // verus!
