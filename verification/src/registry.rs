//! The decisions of tree acquisition: which adapters may be registered, which
//! adapter takes a file, how many diagnostics a report keeps, and the order of a
//! report's facts and diagnostics.

use vstd::prelude::*;
use crate::acquisition::{fact_views, AcquiredFact, FactView};
use crate::order::{
    key_lt, key_of, lemma_key_lt_irreflexive, lemma_key_lt_total, lemma_key_lt_transitive,
    lemma_stable_sort_map, lemma_stable_sort_ordered, lemma_stable_sort_permutes, lemma_text_key_injective,
    lemma_texts_key_injective, push_rank_key, push_text_key, rank_key, sort_by_key, stable_sort_by, text_key,
    texts_key_fn, SortKey,
};
use crate::analysis::stability::lemma_ordered_permutation_equal;
use crate::text::{cat2, clone_texts, join, joined, owned, push_str, text_eq, views};
use crate::json::{decimal, push_decimal};

verus! {

/// How an adapter reads sources.
#[derive(Debug, Clone, Copy, PartialEq, Eq, PartialOrd, Ord, Structural)]
pub enum AdapterFamily {
    TreeSitter,
    StructuredSemantic,
}

/// What an adapter is called and which file extensions it takes.
#[derive(Debug, Clone, PartialEq, Eq)]
pub struct AdapterCapability {
    pub adapter: String,
    pub family: AdapterFamily,
    pub extensions: Vec<String>,
}

pub struct CapabilityView {
    pub adapter: Seq<char>,
    pub family: AdapterFamily,
    pub extensions: Seq<Seq<char>>,
}

impl View for AdapterCapability {
    type V = CapabilityView;

    open spec fn view(&self) -> CapabilityView {
        CapabilityView { adapter: self.adapter@, family: self.family, extensions: views(self.extensions@) }
    }
}

pub open spec fn capability_views(s: Seq<AdapterCapability>) -> Seq<CapabilityView> {
    s.map_values(|c: AdapterCapability| c@)
}

/// An adapter's failure, with its message.
#[derive(Debug, Clone, PartialEq, Eq)]
pub struct AdapterError {
    message: String,
}

impl View for AdapterError {
    type V = Seq<char>;

    closed spec fn view(&self) -> Seq<char> {
        self.message@
    }
}

impl AdapterError {
    pub fn new(message: String) -> (r: AdapterError)
        ensures
            r@ == message@,
    {
        AdapterError { message }
    }

    pub fn message(&self) -> (r: String)
        ensures
            r@ == self@,
    {
        self.message.clone()
    }
}

/// The kinds of acquisition diagnostic.
#[derive(Debug, Clone, Copy, PartialEq, Eq, PartialOrd, Ord, Structural)]
pub enum DiagnosticKind {
    UnsupportedSource,
    DiagnosticsTruncated,
}

pub open spec fn diagnostic_rank(k: DiagnosticKind) -> u32 {
    match k {
        DiagnosticKind::UnsupportedSource => 0,
        DiagnosticKind::DiagnosticsTruncated => 1,
    }
}

/// Something acquisition could not do with one file.
#[derive(Debug, Clone, PartialEq, Eq)]
pub struct AcquisitionDiagnostic {
    pub kind: DiagnosticKind,
    pub path: String,
    pub message: String,
}

pub struct DiagnosticView {
    pub kind: DiagnosticKind,
    pub path: Seq<char>,
    pub message: Seq<char>,
}

impl View for AcquisitionDiagnostic {
    type V = DiagnosticView;

    open spec fn view(&self) -> DiagnosticView {
        DiagnosticView { kind: self.kind, path: self.path@, message: self.message@ }
    }
}

pub open spec fn diagnostic_views(s: Seq<AcquisitionDiagnostic>) -> Seq<DiagnosticView> {
    s.map_values(|d: AcquisitionDiagnostic| d@)
}

/// Why acquiring a tree failed.
#[derive(Debug, Clone, PartialEq, Eq)]
pub enum AcquisitionError {
    InvalidRoot(String),
    Io { path: String, message: String },
    AmbiguousAdapter { path: String, adapters: Vec<String> },
    InvalidJson { path: String, message: String },
    AdapterFailure { adapter: String, path: String, message: String },
    MalformedSyntax { adapter: String, path: String, diagnostic_count: usize },
    DuplicateAdapterId { adapter: String },
}

pub open spec fn acquisition_error_text(e: AcquisitionError) -> Seq<char> {
    match e {
        AcquisitionError::InvalidRoot(p) => "source tree is not a readable directory: "@ + p@,
        AcquisitionError::Io { path, message } => "cannot acquire "@ + path@ + ": "@ + message@,
        AcquisitionError::AmbiguousAdapter { path, adapters } => "ambiguous acquisition adapter for "@ + path@ + ": "@
            + joined(views(adapters@), ", "@),
        AcquisitionError::InvalidJson { path, message } => "invalid JSON source "@ + path@ + ": "@ + message@,
        AcquisitionError::AdapterFailure { adapter, path, message } => adapter@ + " acquisition failed for "@ + path@
            + ": "@ + message@,
        AcquisitionError::MalformedSyntax { adapter, path, diagnostic_count } => "malformed "@ + adapter@ + " source "@
            + path@ + ": "@ + decimal(diagnostic_count as nat) + " parse diagnostics"@,
        AcquisitionError::DuplicateAdapterId { adapter } => "duplicate acquisition adapter identity: "@ + adapter@,
    }
}

impl AcquisitionError {
    /// The human-readable description of the error.
    pub fn message(&self) -> (r: String)
        ensures
            r@ == acquisition_error_text(*self),
    {
        match self {
            AcquisitionError::InvalidRoot(p) => cat2("source tree is not a readable directory: ", p.as_str()),
            AcquisitionError::Io { path, message } => {
                let mut r = cat2("cannot acquire ", path.as_str());
                push_str(&mut r, ": ");
                push_str(&mut r, message.as_str());
                r
            },
            AcquisitionError::AmbiguousAdapter { path, adapters } => {
                let mut r = cat2("ambiguous acquisition adapter for ", path.as_str());
                push_str(&mut r, ": ");
                let listed = join(adapters.as_slice(), ", ");
                push_str(&mut r, listed.as_str());
                r
            },
            AcquisitionError::InvalidJson { path, message } => {
                let mut r = cat2("invalid JSON source ", path.as_str());
                push_str(&mut r, ": ");
                push_str(&mut r, message.as_str());
                r
            },
            AcquisitionError::AdapterFailure { adapter, path, message } => {
                let mut r = cat2(adapter.as_str(), " acquisition failed for ");
                push_str(&mut r, path.as_str());
                push_str(&mut r, ": ");
                push_str(&mut r, message.as_str());
                r
            },
            AcquisitionError::MalformedSyntax { adapter, path, diagnostic_count } => {
                let mut r = cat2("malformed ", adapter.as_str());
                push_str(&mut r, " source ");
                push_str(&mut r, path.as_str());
                push_str(&mut r, ": ");
                push_decimal(&mut r, *diagnostic_count);
                push_str(&mut r, " parse diagnostics");
                r
            },
            AcquisitionError::DuplicateAdapterId { adapter } => cat2("duplicate acquisition adapter identity: ", adapter.as_str()),
        }
    }
}

// ---- registration ----

/// The identity occurs twice among the capabilities.
pub open spec fn duplicated(cs: Seq<CapabilityView>, id: Seq<char>) -> bool {
    exists|i: int, j: int| 0 <= i < j < cs.len() && #[trigger] cs[i].adapter == id && #[trigger] cs[j].adapter == id
}

/// The smallest duplicated identity.
pub open spec fn first_duplicate(cs: Seq<CapabilityView>, id: Seq<char>) -> bool {
    &&& duplicated(cs, id)
    &&& forall|other: Seq<char>| duplicated(cs, other) ==> !key_lt(#[trigger] text_key(other), text_key(id))
}

/// Adapters registered by their capabilities.
#[derive(Debug)]
pub struct AcquisitionRuntime {
    capabilities: Vec<AdapterCapability>,
}

impl View for AcquisitionRuntime {
    type V = Seq<CapabilityView>;

    closed spec fn view(&self) -> Seq<CapabilityView> {
        capability_views(self.capabilities@)
    }
}

/// The capability of a built-in adapter: its identity, family and single extension.
pub open spec fn builtin_capability(adapter: Seq<char>, family: AdapterFamily, extension: Seq<char>) -> CapabilityView {
    CapabilityView { adapter, family, extensions: seq![extension] }
}

fn capability_of(adapter: &str, family: AdapterFamily, extension: &str) -> (r: AdapterCapability)
    ensures
        r@ == builtin_capability(adapter@, family, extension@),
{
    let extensions = vec![owned(extension)];
    assert(views(extensions@) =~= seq![extension@]);
    AdapterCapability { adapter: owned(adapter), family, extensions }
}

/// The built-in adapters: Go and Rust read through Tree-sitter, JSON as
/// structured data.
pub open spec fn default_capabilities() -> Seq<CapabilityView> {
    seq![
        builtin_capability("go"@, AdapterFamily::TreeSitter, "go"@),
        builtin_capability("json"@, AdapterFamily::StructuredSemantic, "json"@),
        builtin_capability("rust"@, AdapterFamily::TreeSitter, "rs"@),
    ]
}

impl Default for AcquisitionRuntime {
    fn default() -> (r: AcquisitionRuntime)
        ensures
            r@ == default_capabilities(),
    {
        let capabilities = vec![
            capability_of("go", AdapterFamily::TreeSitter, "go"),
            capability_of("json", AdapterFamily::StructuredSemantic, "json"),
            capability_of("rust", AdapterFamily::TreeSitter, "rs"),
        ];
        let r = AcquisitionRuntime { capabilities };
        assert(r@ =~= default_capabilities());
        r
    }
}

pub fn clone_capability(c: &AdapterCapability) -> (r: AdapterCapability)
    ensures
        r@ == c@,
{
    AdapterCapability { adapter: c.adapter.clone(), family: c.family, extensions: clone_texts(&c.extensions) }
}

impl SortKey for AdapterCapability {
    open spec fn sort_key(&self) -> Seq<u32> {
        text_key(self.adapter@)
    }

    fn sort_key_exec(&self) -> (k: Vec<u32>) {
        let mut k: Vec<u32> = Vec::new();
        push_text_key(&mut k, self.adapter.as_str());
        k
    }
}

pub open spec fn capability_order_fn() -> spec_fn(CapabilityView) -> Seq<u32> {
    |c: CapabilityView| text_key(c.adapter)
}

impl AcquisitionRuntime {
    /// Registers adapters; two adapters with one identity are refused, naming
    /// the smallest such identity.
    pub fn with_adapters(capabilities: Vec<AdapterCapability>) -> (r: Result<AcquisitionRuntime, AcquisitionError>)
        ensures
            r is Ok <==> !exists|id: Seq<char>| duplicated(capability_views(capabilities@), id),
            r matches Ok(rt) ==> rt@ == capability_views(capabilities@),
            r matches Err(e) ==> (e matches AcquisitionError::DuplicateAdapterId { adapter } && first_duplicate(
                capability_views(capabilities@),
                adapter@,
            )),
    {
        let ghost cs = capability_views(capabilities@);
        let mut found = false;
        let mut best: usize = 0;
        let mut best_key: Vec<u32> = Vec::new();
        let mut j: usize = 0;
        while j < capabilities.len()
            invariant
                j <= capabilities.len(),
                cs == capability_views(capabilities@),
                found ==> best < capabilities@.len() && duplicated(cs, cs[best as int].adapter) && best_key@ == text_key(cs[best as int].adapter),
                found <==> exists|a: int, b: int| 0 <= a < b < j && #[trigger] cs[a].adapter == #[trigger] cs[b].adapter,
                found ==> forall|a: int, b: int| 0 <= a < b < j && #[trigger] cs[a].adapter == #[trigger] cs[b].adapter
                    ==> !key_lt(text_key(cs[b].adapter), best_key@),
            decreases capabilities.len() - j,
        {
            // does an earlier capability share this identity?
            let mut i: usize = 0;
            let mut earlier = false;
            while i < j && !earlier
                invariant
                    i <= j,
                    j < capabilities.len(),
                    cs == capability_views(capabilities@),
                    !earlier ==> forall|a: int| 0 <= a < i ==> cs[a].adapter != cs[j as int].adapter,
                    earlier ==> exists|a: int| 0 <= a < j && cs[a].adapter == cs[j as int].adapter,
                decreases j - i,
            {
                assert(cs[i as int] == capabilities@[i as int]@);
                assert(cs[j as int] == capabilities@[j as int]@);
                if text_eq(capabilities[i].adapter.as_str(), capabilities[j].adapter.as_str()) {
                    earlier = true;
                    assert(cs[i as int].adapter == cs[j as int].adapter);
                }
                i = i + 1;
            }
            if earlier {
                let k = capabilities[j].sort_key_exec();
                proof {
                    let a = choose|a: int| 0 <= a < j && cs[a].adapter == cs[j as int].adapter;
                    assert(duplicated(cs, cs[j as int].adapter));
                }
                if !found || crate::order::key_compare(&k, &best_key) < 0 {
                    proof {
                        assert forall|a: int, b: int| 0 <= a < b < j + 1 && #[trigger] cs[a].adapter == #[trigger] cs[b].adapter
                            implies !key_lt(text_key(cs[b].adapter), k@) by {
                            if b < j {
                                if key_lt(text_key(cs[b].adapter), k@) && found {
                                    lemma_key_lt_transitive(text_key(cs[b].adapter), k@, best_key@);
                                }
                            } else {
                                lemma_key_lt_irreflexive(k@);
                            }
                        }
                    }
                    found = true;
                    best = j;
                    best_key = k;
                } else {
                    proof {
                        lemma_key_lt_total(k@, best_key@);
                    }
                }
            } else {
                proof {
                    assert forall|a: int, b: int| 0 <= a < b < j + 1 && #[trigger] cs[a].adapter == #[trigger] cs[b].adapter
                        implies b < j by {
                        if b == j {
                            assert(cs[a].adapter != cs[j as int].adapter);
                        }
                    }
                }
            }
            j = j + 1;
        }
        if found {
            proof {
                assert forall|other: Seq<char>| duplicated(cs, other) implies !key_lt(#[trigger] text_key(other), text_key(cs[best as int].adapter)) by {
                    let (a, b) = choose|a: int, b: int| 0 <= a < b < cs.len() && #[trigger] cs[a].adapter == other && #[trigger] cs[b].adapter == other;
                    assert(cs[a].adapter == cs[b].adapter);
                }
            }
            return Err(AcquisitionError::DuplicateAdapterId { adapter: capabilities[best].adapter.clone() });
        }
        proof {
            assert forall|id: Seq<char>| !duplicated(cs, id) by {
                if duplicated(cs, id) {
                    let (a, b) = choose|a: int, b: int| 0 <= a < b < cs.len() && #[trigger] cs[a].adapter == id && #[trigger] cs[b].adapter == id;
                    assert(cs[a].adapter == cs[b].adapter);
                }
            }
        }
        Ok(AcquisitionRuntime { capabilities })
    }

    /// The registered capabilities, ordered by adapter identity.
    pub fn capabilities(&self) -> (r: Vec<AdapterCapability>)
        ensures
            capability_views(r@) == stable_sort_by(self@, capability_order_fn()),
    {
        let mut copies: Vec<AdapterCapability> = Vec::new();
        let mut i: usize = 0;
        while i < self.capabilities.len()
            invariant
                i <= self.capabilities.len(),
                copies@.len() == i,
                forall|k: int| 0 <= k < i ==> (#[trigger] copies@[k])@ == self.capabilities@[k]@,
            decreases self.capabilities.len() - i,
        {
            copies.push(clone_capability(&self.capabilities[i]));
            i = i + 1;
        }
        let ghost unsorted = copies@;
        assert(capability_views(unsorted) =~= self@);
        let sorted = sort_by_key(copies);
        proof {
            lemma_stable_sort_map(unsorted, key_of::<AdapterCapability>(), |c: AdapterCapability| c@, capability_order_fn());
        }
        sorted
    }
}

// ---- which adapter takes a file ----

/// The position of the last `.` below `n`.
pub open spec fn last_dot(name: Seq<char>, n: int) -> Option<int>
    decreases n,
{
    if n <= 0 || n > name.len() {
        None
    } else if name[n - 1] == '.' {
        Some(n - 1)
    } else {
        last_dot(name, n - 1)
    }
}

/// `Path::extension` of a file name: what follows its last `.`, unless the
/// name has no `.` or only a leading one.
pub open spec fn extension(name: Seq<char>) -> Option<Seq<char>> {
    if name == ".."@ {
        None
    } else {
        match last_dot(name, name.len() as int) {
            None => None,
            Some(i) => if i == 0 {
                None
            } else {
                Some(name.skip(i + 1))
            },
        }
    }
}

pub fn extension_of(name: &str) -> (r: Option<String>)
    ensures
        match r {
            Some(e) => extension(name@) == Some(e@),
            None => extension(name@) is None,
        },
{
    if text_eq(name, "..") {
        return None;
    }
    let chars = crate::text::chars_of(name);
    let mut n: usize = chars.len();
    while n > 0 && chars[n - 1] != '.'
        invariant
            n <= chars@.len(),
            chars@ == name@,
            last_dot(name@, name@.len() as int) == last_dot(name@, n as int),
        decreases n,
    {
        n = n - 1;
    }
    if n <= 1 {
        return None;
    }
    let mut r = String::new();
    let mut k: usize = n;
    while k < chars.len()
        invariant
            n <= k <= chars@.len(),
            chars@ == name@,
            r@ == name@.subrange(n as int, k as int),
        decreases chars.len() - k,
    {
        crate::text::push_char(&mut r, chars[k]);
        assert(name@.subrange(n as int, k + 1) =~= name@.subrange(n as int, k as int).push(name@[k as int]));
        k = k + 1;
    }
    assert(name@.subrange(n as int, name@.len() as int) =~= name@.skip(n as int));
    Some(r)
}

/// The adapter that takes a file, if exactly one does.
#[derive(Debug)]
pub enum AdapterChoice {
    Unsupported,
    Single(usize),
    Ambiguous(Vec<String>),
}

/// The capability lists the extension.
pub open spec fn takes(c: CapabilityView, ext: Option<Seq<char>>) -> bool {
    ext matches Some(e) && c.extensions.contains(e)
}

/// The positions, below `n`, of the capabilities that take the extension.
pub open spec fn taking(cs: Seq<CapabilityView>, ext: Option<Seq<char>>, n: int) -> Seq<int>
    decreases n,
{
    if n <= 0 || n > cs.len() {
        Seq::empty()
    } else if takes(cs[n - 1], ext) {
        taking(cs, ext, n - 1).push(n - 1)
    } else {
        taking(cs, ext, n - 1)
    }
}

fn lists_text(v: &Vec<String>, t: &String) -> (r: bool)
    ensures
        r == views(v@).contains(t@),
{
    let mut i: usize = 0;
    while i < v.len()
        invariant
            i <= v.len(),
            forall|k: int| 0 <= k < i ==> v@[k]@ != t@,
        decreases v.len() - i,
    {
        if text_eq(v[i].as_str(), t.as_str()) {
            assert(views(v@)[i as int] == t@);
            return true;
        }
        i = i + 1;
    }
    assert(!views(v@).contains(t@));
    false
}

impl AcquisitionRuntime {
    /// The adapter for a file with the given extension: none, the one that
    /// takes it (its position in registration order), or the sorted identities
    /// of all that take it.
    pub fn choose_adapter(&self, ext: &Option<String>) -> (r: AdapterChoice)
        ensures
            ({
                let m = taking(self@, match ext { Some(e) => Some(e@), None => None }, self@.len() as int);
                &&& m.len() == 0 <==> r is Unsupported
                &&& m.len() == 1 <==> r is Single
                &&& r matches AdapterChoice::Single(k) ==> k as int == m[0]
                &&& r matches AdapterChoice::Ambiguous(names) ==> views(names@) == stable_sort_by(
                    m.map_values(|k: int| self@[k].adapter),
                    crate::order::text_key_fn(),
                )
            }),
    {
        let ghost e = match ext { Some(x) => Some(x@), None => None::<Seq<char>> };
        let ghost cs = self@;
        let mut found: Vec<usize> = Vec::new();
        let mut names: Vec<String> = Vec::new();
        let mut i: usize = 0;
        while i < self.capabilities.len()
            invariant
                i <= self.capabilities.len(),
                cs == self@,
                cs == capability_views(self.capabilities@),
                e == (match ext { Some(x) => Some(x@), None => None::<Seq<char>> }),
                found@.len() == names@.len(),
                found@.map_values(|k: usize| k as int) == taking(cs, e, i as int),
                views(names@) == taking(cs, e, i as int).map_values(|k: int| cs[k].adapter),
                forall|q: int| 0 <= q < found@.len() ==> (#[trigger] found@[q]) < i,
            decreases self.capabilities.len() - i,
        {
            let c = &self.capabilities[i];
            assert(cs[i as int] == c@);
            let ghost fb = found@;
            let ghost nb = names@;
            let hit = match ext {
                Some(x) => lists_text(&c.extensions, x),
                None => false,
            };
            assert(hit == takes(cs[i as int], e));
            assert(taking(cs, e, i + 1) == (if hit { taking(cs, e, i as int).push(i as int) } else { taking(cs, e, i as int) }));
            if hit {
                found.push(i);
                names.push(c.adapter.clone());
                assert(found@.map_values(|k: usize| k as int) =~= fb.map_values(|k: usize| k as int).push(i as int));
                assert(views(names@) =~= views(nb).push(c.adapter@));
                assert(taking(cs, e, i + 1).map_values(|k: int| cs[k].adapter) =~= taking(cs, e, i as int).map_values(|k: int| cs[k].adapter).push(cs[i as int].adapter));
            }
            i = i + 1;
        }
        if found.len() == 0 {
            AdapterChoice::Unsupported
        } else if found.len() == 1 {
            assert(found@.map_values(|k: usize| k as int)[0] == found@[0] as int);
            AdapterChoice::Single(found[0])
        } else {
            let ghost unsorted = names@;
            let sorted = sort_by_key(names);
            proof {
                lemma_stable_sort_map(unsorted, key_of::<String>(), |x: String| x@, crate::order::text_key_fn());
                assert(unsorted.map_values(|x: String| x@) =~= views(unsorted));
                assert(sorted@.map_values(|x: String| x@) =~= views(sorted@));
            }
            AdapterChoice::Ambiguous(sorted)
        }
    }
}

// ---- diagnostics ----

/// A report keeps at most this many diagnostics, then notes the truncation.
pub const MAX_DIAGNOSTICS: usize = 64;

pub open spec fn truncation_notice() -> DiagnosticView {
    DiagnosticView {
        kind: DiagnosticKind::DiagnosticsTruncated,
        path: Seq::empty(),
        message: "diagnostics truncated after "@ + decimal(64) + " entries"@,
    }
}

/// Appends a diagnostic while fewer than the maximum are kept, then a single
/// truncation notice, then nothing.
pub open spec fn pushed(ds: Seq<DiagnosticView>, d: DiagnosticView) -> Seq<DiagnosticView> {
    if ds.len() < 64 {
        ds.push(d)
    } else if ds.len() == 64 {
        ds.push(truncation_notice())
    } else {
        ds
    }
}

pub fn push_diagnostic(diagnostics: &mut Vec<AcquisitionDiagnostic>, diagnostic: AcquisitionDiagnostic)
    ensures
        diagnostic_views(final(diagnostics)@) == pushed(diagnostic_views(old(diagnostics)@), diagnostic@),
{
    let ghost before = diagnostics@;
    if diagnostics.len() < MAX_DIAGNOSTICS {
        diagnostics.push(diagnostic);
        assert(diagnostic_views(diagnostics@) =~= diagnostic_views(before).push(diagnostic@));
    } else if diagnostics.len() == MAX_DIAGNOSTICS {
        let mut message = owned("diagnostics truncated after ");
        push_decimal(&mut message, MAX_DIAGNOSTICS);
        push_str(&mut message, " entries");
        diagnostics.push(AcquisitionDiagnostic { kind: DiagnosticKind::DiagnosticsTruncated, path: String::new(), message });
        assert(diagnostic_views(diagnostics@) =~= diagnostic_views(before).push(truncation_notice()));
    }
}

// ---- the order of a report ----

/// Facts are ordered by path, locator, adapter, kind and text.
pub open spec fn fact_order(f: FactView) -> Seq<u32> {
    text_key(f.path) + text_key(f.locator) + text_key(f.adapter) + text_key(f.kind) + text_key(f.text)
}

pub open spec fn fact_order_fn() -> spec_fn(FactView) -> Seq<u32> {
    |f: FactView| fact_order(f)
}

/// Diagnostics are ordered by path, kind and message.
pub open spec fn diagnostic_order(d: DiagnosticView) -> Seq<u32> {
    text_key(d.path) + rank_key(diagnostic_rank(d.kind)) + text_key(d.message)
}

pub open spec fn diagnostic_order_fn() -> spec_fn(DiagnosticView) -> Seq<u32> {
    |d: DiagnosticView| diagnostic_order(d)
}

impl SortKey for AcquiredFact {
    open spec fn sort_key(&self) -> Seq<u32> {
        fact_order(self@)
    }

    fn sort_key_exec(&self) -> (k: Vec<u32>) {
        let mut k: Vec<u32> = Vec::new();
        push_text_key(&mut k, self.path.as_str());
        push_text_key(&mut k, self.locator.as_str());
        push_text_key(&mut k, self.adapter.as_str());
        push_text_key(&mut k, self.kind.as_str());
        push_text_key(&mut k, self.text.as_str());
        assert(k@ =~= fact_order(self@));
        k
    }
}

impl SortKey for AcquisitionDiagnostic {
    open spec fn sort_key(&self) -> Seq<u32> {
        diagnostic_order(self@)
    }

    fn sort_key_exec(&self) -> (k: Vec<u32>) {
        let mut k: Vec<u32> = Vec::new();
        push_text_key(&mut k, self.path.as_str());
        let rank: u32 = match self.kind {
            DiagnosticKind::UnsupportedSource => 0,
            DiagnosticKind::DiagnosticsTruncated => 1,
        };
        push_rank_key(&mut k, rank);
        push_text_key(&mut k, self.message.as_str());
        assert(k@ =~= diagnostic_order(self@));
        k
    }
}

/// Facts in report order (stable).
pub fn order_facts(facts: Vec<AcquiredFact>) -> (r: Vec<AcquiredFact>)
    ensures
        fact_views(r@) == stable_sort_by(fact_views(facts@), fact_order_fn()),
{
    let ghost before = facts@;
    let r = sort_by_key(facts);
    proof {
        lemma_stable_sort_map(before, key_of::<AcquiredFact>(), |f: AcquiredFact| f@, fact_order_fn());
        assert(fact_views(before) =~= before.map_values(|f: AcquiredFact| f@));
        assert(fact_views(r@) =~= r@.map_values(|f: AcquiredFact| f@));
    }
    r
}

/// Diagnostics in report order (stable).
pub fn order_diagnostics(diagnostics: Vec<AcquisitionDiagnostic>) -> (r: Vec<AcquisitionDiagnostic>)
    ensures
        diagnostic_views(r@) == stable_sort_by(diagnostic_views(diagnostics@), diagnostic_order_fn()),
{
    let ghost before = diagnostics@;
    let r = sort_by_key(diagnostics);
    proof {
        lemma_stable_sort_map(before, key_of::<AcquisitionDiagnostic>(), |d: AcquisitionDiagnostic| d@, diagnostic_order_fn());
    }
    r
}

/// A relative path written with `/` between its components.
pub fn normalized_path(components: &[String]) -> (r: String)
    ensures
        r@ == joined(views(components@), "/"@),
{
    join(components, "/")
}

/// Directories that acquisition does not enter.
pub open spec fn skipped_directory(name: Seq<char>) -> bool {
    name == ".git"@ || name == "target"@ || name == "node_modules"@ || name == ".venv"@ || name == "__pycache__"@
}

pub fn is_skipped_directory(name: &str) -> (r: bool)
    ensures
        r == skipped_directory(name@),
{
    text_eq(name, ".git") || text_eq(name, "target") || text_eq(name, "node_modules") || text_eq(name, ".venv")
        || text_eq(name, "__pycache__")
}

/// Diagnostics never grow past the cap and one notice: a diagnostic is kept
/// while fewer than the cap are held, the notice takes the next place, and
/// nothing is added after it.
pub proof fn law_diagnostics_are_capped(ds: Seq<DiagnosticView>, d: DiagnosticView)
    requires
        ds.len() <= 65,
    ensures
        pushed(ds, d).len() <= 65,
        ds.len() < 64 ==> pushed(ds, d) == ds.push(d),
        ds.len() == 64 ==> pushed(ds, d) == ds.push(truncation_notice()),
        ds.len() == 65 ==> pushed(ds, d) == ds,
{
}

/// The diagnostics held after pushing each of `ds` in turn into an empty list.
pub open spec fn pushed_all(ds: Seq<DiagnosticView>) -> Seq<DiagnosticView>
    decreases ds.len(),
{
    if ds.len() == 0 {
        Seq::empty()
    } else {
        pushed(pushed_all(ds.drop_last()), ds.last())
    }
}

/// Pushing diagnostics one after another into an empty list keeps the first
/// ones up to the cap, in order; a push past the cap adds the truncation notice
/// once, and every later push leaves the list as it is.
pub proof fn law_diagnostics_are_capped_over_pushes(ds: Seq<DiagnosticView>)
    ensures
        ds.len() <= 64 ==> pushed_all(ds) == ds,
        ds.len() > 64 ==> pushed_all(ds) == ds.take(64).push(truncation_notice()),
    decreases ds.len(),
{
    if ds.len() > 0 {
        law_diagnostics_are_capped_over_pushes(ds.drop_last());
        if ds.len() <= 64 {
            assert(ds.drop_last().push(ds.last()) =~= ds);
        } else if ds.len() == 65 {
            assert(ds.drop_last() =~= ds.take(64));
        } else {
            assert(ds.drop_last().take(64) =~= ds.take(64));
        }
    }
}

/// The states that a list of diagnostics passes through when it starts empty
/// and each call of `push_diagnostic` pushes the next of `ds`: after `k` calls
/// it holds the first `k` pushed in turn.
proof fn lemma_states_follow_pushes(states: Seq<Seq<DiagnosticView>>, ds: Seq<DiagnosticView>, k: int)
    requires
        states.len() == ds.len() + 1,
        states[0] == Seq::<DiagnosticView>::empty(),
        forall|j: int| 0 <= j < ds.len() ==> #[trigger] states[j + 1] == pushed(states[j], ds[j]),
        0 <= k <= ds.len(),
    ensures
        states[k] == pushed_all(ds.take(k)),
    decreases k,
{
    if k > 0 {
        lemma_states_follow_pushes(states, ds, k - 1);
        assert(ds.take(k).drop_last() =~= ds.take(k - 1));
        assert(states[(k - 1) + 1] == pushed(states[k - 1], ds[k - 1]));
    } else {
        assert(ds.take(0) =~= Seq::<DiagnosticView>::empty());
    }
}

/// However many times `push_diagnostic` is called on a list that starts empty,
/// the list keeps the first pushes up to the cap, in order, then the truncation
/// notice once; every later call leaves it as it is.
pub proof fn law_diagnostics_are_capped_over_calls(states: Seq<Seq<DiagnosticView>>, ds: Seq<DiagnosticView>)
    requires
        states.len() == ds.len() + 1,
        states[0] == Seq::<DiagnosticView>::empty(),
        forall|j: int| 0 <= j < ds.len() ==> #[trigger] states[j + 1] == pushed(states[j], ds[j]),
    ensures
        ds.len() <= 64 ==> states.last() == ds,
        ds.len() > 64 ==> states.last() == ds.take(64).push(truncation_notice()),
        forall|j: int| 64 < j < ds.len() ==> #[trigger] states[j + 1] == states[j],
{
    lemma_states_follow_pushes(states, ds, ds.len() as int);
    assert(ds.take(ds.len() as int) =~= ds);
    law_diagnostics_are_capped_over_pushes(ds);
    assert forall|j: int| 64 < j < ds.len() implies #[trigger] states[j + 1] == states[j] by {
        lemma_states_follow_pushes(states, ds, j);
        law_diagnostics_are_capped_over_pushes(ds.take(j));
        assert(states[j].len() == 65);
    }
}

// ---- acquiring a tree ----

/// What acquisition reports for a tree: the registered capabilities, the facts
/// and the diagnostics.
#[derive(Debug)]
pub struct AcquisitionReport {
    pub capabilities: Vec<AdapterCapability>,
    pub facts: Vec<AcquiredFact>,
    pub diagnostics: Vec<AcquisitionDiagnostic>,
}

/// A file of the tree, by its path below the root.
pub struct TreeFile {
    pub components: Vec<String>,
}

impl SortKey for TreeFile {
    open spec fn sort_key(&self) -> Seq<u32> {
        crate::order::texts_key(views(self.components@))
    }

    fn sort_key_exec(&self) -> (k: Vec<u32>) {
        let mut k: Vec<u32> = Vec::new();
        crate::order::push_texts_key(&mut k, self.components.as_slice());
        k
    }
}

/// Read one file and hand its bytes to one adapter.
pub struct AcquisitionStep {
    pub relative_path: Vec<String>,
    pub path: String,
    pub adapter: usize,
}

pub struct StepView {
    pub relative_path: Seq<Seq<char>>,
    pub path: Seq<char>,
    pub adapter: int,
}

impl View for AcquisitionStep {
    type V = StepView;

    open spec fn view(&self) -> StepView {
        StepView { relative_path: views(self.relative_path@), path: self.path@, adapter: self.adapter as int }
    }
}

/// What acquisition does with the files of a tree, decided before any file is
/// read: the reads, in path order, up to the first file that several adapters
/// take; the diagnostics for files that no adapter takes; and that file, if any,
/// with the sorted names of the adapters that take it.
pub struct AcquisitionPlan {
    pub steps: Vec<AcquisitionStep>,
    pub diagnostics: Vec<AcquisitionDiagnostic>,
    pub ambiguous: Option<(String, Vec<String>)>,
}

pub struct PlanView {
    pub steps: Seq<StepView>,
    pub diagnostics: Seq<DiagnosticView>,
    pub ambiguous: Option<(Seq<char>, Seq<Seq<char>>)>,
}

impl View for AcquisitionPlan {
    type V = PlanView;

    open spec fn view(&self) -> PlanView {
        PlanView {
            steps: self.steps@.map_values(|x: AcquisitionStep| x@),
            diagnostics: diagnostic_views(self.diagnostics@),
            ambiguous: match self.ambiguous {
                Some((p, names)) => Some((p@, views(names@))),
                None => None,
            },
        }
    }
}

pub open spec fn last_component(f: Seq<Seq<char>>) -> Seq<char> {
    if f.len() == 0 { Seq::empty() } else { f.last() }
}

pub open spec fn unsupported_notice(path: Seq<char>) -> DiagnosticView {
    DiagnosticView { kind: DiagnosticKind::UnsupportedSource, path, message: "no registered acquisition adapter"@ }
}

/// The plan for the first `n` files (already in path order).
pub open spec fn plan_upto(cs: Seq<CapabilityView>, fs: Seq<Seq<Seq<char>>>, n: int) -> PlanView
    decreases n,
{
    if n <= 0 || n > fs.len() {
        PlanView { steps: Seq::empty(), diagnostics: Seq::empty(), ambiguous: None }
    } else {
        let p = plan_upto(cs, fs, n - 1);
        if p.ambiguous is Some {
            p
        } else {
            let f = fs[n - 1];
            let path = joined(f, "/"@);
            let m = taking(cs, extension(last_component(f)), cs.len() as int);
            if m.len() == 0 {
                PlanView { diagnostics: pushed(p.diagnostics, unsupported_notice(path)), ..p }
            } else if m.len() == 1 {
                PlanView { steps: p.steps.push(StepView { relative_path: f, path, adapter: m[0] }), ..p }
            } else {
                PlanView {
                    ambiguous: Some(
                        (path, stable_sort_by(m.map_values(|k: int| cs[k].adapter), crate::order::text_key_fn())),
                    ),
                    ..p
                }
            }
        }
    }
}

pub open spec fn tree_file_views(s: Seq<TreeFile>) -> Seq<Seq<Seq<char>>> {
    s.map_values(|f: TreeFile| views(f.components@))
}

/// The plan for the files of a tree, taken in path order.
pub open spec fn acquisition_plan(cs: Seq<CapabilityView>, files: Seq<TreeFile>) -> PlanView {
    let sorted = tree_file_views(stable_sort_by(files, key_of::<TreeFile>()));
    plan_upto(cs, sorted, sorted.len() as int)
}

impl AcquisitionRuntime {
    /// Decides, for the regular files of a tree (symbolic links and skipped
    /// directories left out), which adapter reads each one.
    pub fn plan_acquisition(&self, files: Vec<TreeFile>) -> (r: AcquisitionPlan)
        ensures
            r@ == acquisition_plan(self@, files@),
    {
        let ghost cs = self@;
        let sorted = sort_by_key(files);
        let ghost fs = tree_file_views(sorted@);
        let mut steps: Vec<AcquisitionStep> = Vec::new();
        let mut diagnostics: Vec<AcquisitionDiagnostic> = Vec::new();
        let mut i: usize = 0;
        assert(steps@.map_values(|x: AcquisitionStep| x@) =~= Seq::<StepView>::empty());
        assert(diagnostic_views(diagnostics@) =~= Seq::<DiagnosticView>::empty());
        while i < sorted.len()
            invariant
                i <= sorted@.len(),
                cs == self@,
                fs == tree_file_views(sorted@),
                sorted@ == stable_sort_by(files@, key_of::<TreeFile>()),
                plan_upto(cs, fs, i as int) == (PlanView {
                    steps: steps@.map_values(|x: AcquisitionStep| x@),
                    diagnostics: diagnostic_views(diagnostics@),
                    ambiguous: None,
                }),
            decreases sorted.len() - i,
        {
            let f = &sorted[i].components;
            assert(fs[i as int] == views(f@));
            let name: &str = if f.len() == 0 { "" } else { f[f.len() - 1].as_str() };
            proof {
                reveal_strlit("");
                if f@.len() > 0 {
                    assert(views(f@).last() == f@[f@.len() - 1]@);
                }
                assert(name@ =~= last_component(views(f@)));
            }
            let ext = extension_of(name);
            let path = join(f.as_slice(), "/");
            let ghost before = PlanView {
                steps: steps@.map_values(|x: AcquisitionStep| x@),
                diagnostics: diagnostic_views(diagnostics@),
                ambiguous: None,
            };
            match self.choose_adapter(&ext) {
                AdapterChoice::Unsupported => {
                    push_diagnostic(
                        &mut diagnostics,
                        AcquisitionDiagnostic {
                            kind: DiagnosticKind::UnsupportedSource,
                            path,
                            message: owned("no registered acquisition adapter"),
                        },
                    );
                },
                AdapterChoice::Single(k) => {
                    let step = AcquisitionStep { relative_path: clone_texts(f), path, adapter: k };
                    steps.push(step);
                    assert(steps@.map_values(|x: AcquisitionStep| x@) =~= before.steps.push(step@));
                },
                AdapterChoice::Ambiguous(names) => {
                    let r = AcquisitionPlan { steps, diagnostics, ambiguous: Some((path, names)) };
                    proof {
                        lemma_plan_stops(cs, fs, i + 1, fs.len() as int);
                        assert(fs.len() == sorted@.len());
                    }
                    return r;
                },
            }
            i = i + 1;
        }
        AcquisitionPlan { steps, diagnostics, ambiguous: None }
    }

    /// The report of an acquisition whose reads all succeeded: the capabilities
    /// in identity order, and the facts and diagnostics each in their order.
    pub fn finish_acquisition(&self, facts: Vec<AcquiredFact>, diagnostics: Vec<AcquisitionDiagnostic>) -> (r:
        AcquisitionReport)
        ensures
            capability_views(r.capabilities@) == stable_sort_by(self@, capability_order_fn()),
            fact_views(r.facts@) == stable_sort_by(fact_views(facts@), fact_order_fn()),
            diagnostic_views(r.diagnostics@) == stable_sort_by(diagnostic_views(diagnostics@), diagnostic_order_fn()),
    {
        AcquisitionReport {
            capabilities: self.capabilities(),
            facts: order_facts(facts),
            diagnostics: order_diagnostics(diagnostics),
        }
    }
}

/// The view of a tree file: its path components.
pub open spec fn tree_file_view_fn() -> spec_fn(TreeFile) -> Seq<Seq<char>> {
    |f: TreeFile| views(f.components@)
}

/// The files of a tree in path order, as paths.
proof fn lemma_sorted_tree_files(files: Seq<TreeFile>)
    ensures
        tree_file_views(stable_sort_by(files, key_of::<TreeFile>())) == stable_sort_by(
            tree_file_views(files),
            texts_key_fn(),
        ),
{
    lemma_stable_sort_map(files, key_of::<TreeFile>(), tree_file_view_fn(), texts_key_fn());
    assert(tree_file_views(files) =~= files.map_values(tree_file_view_fn()));
    let sorted = stable_sort_by(files, key_of::<TreeFile>());
    assert(tree_file_views(sorted) =~= sorted.map_values(tree_file_view_fn()));
}

/// Acquisition does not depend on the order in which the files of a tree are
/// listed: two listings of the same paths give the same plan, and so the same
/// reads, diagnostics and refusal.
pub proof fn law_plan_is_order_independent(cs: Seq<CapabilityView>, a: Seq<TreeFile>, b: Seq<TreeFile>)
    requires
        tree_file_views(a).to_multiset() == tree_file_views(b).to_multiset(),
    ensures
        acquisition_plan(cs, a) == acquisition_plan(cs, b),
{
    lemma_sorted_tree_files(a);
    lemma_sorted_tree_files(b);
    let sa = stable_sort_by(tree_file_views(a), texts_key_fn());
    let sb = stable_sort_by(tree_file_views(b), texts_key_fn());
    lemma_stable_sort_ordered(tree_file_views(a), texts_key_fn());
    lemma_stable_sort_ordered(tree_file_views(b), texts_key_fn());
    lemma_stable_sort_permutes(tree_file_views(a), texts_key_fn());
    lemma_stable_sort_permutes(tree_file_views(b), texts_key_fn());
    assert forall|x: Seq<Seq<char>>, y: Seq<Seq<char>>|
        sa.contains(x) && sb.contains(y) && texts_key_fn()(x) == texts_key_fn()(y) implies x == y by {
        lemma_texts_key_injective(x, y);
    }
    lemma_ordered_permutation_equal(sa, sb, texts_key_fn());
}

proof fn lemma_plan_stops(cs: Seq<CapabilityView>, fs: Seq<Seq<Seq<char>>>, k: int, n: int)
    requires
        0 < k <= n <= fs.len(),
        plan_upto(cs, fs, k).ambiguous is Some,
    ensures
        plan_upto(cs, fs, n) == plan_upto(cs, fs, k),
    decreases n - k,
{
    if n > k {
        lemma_plan_stops(cs, fs, k, n - 1);
    }
}

} // verus!
