//! The rules a benchmark corpus is held to: which entries a case directory may
//! hold, that a case's metadata matches its place in the corpus, and that the
//! committed fixture files are exactly the declared ones, byte for byte.
//!
//! Reading directories and files is left to the caller, which hands over
//! names, paths and bytes.

use vstd::prelude::*;
use crate::benchmark::model::{BenchmarkCase, FixtureFileV1, SpecimenV1};
use crate::benchmark::source::{hex_text, sha256, sha256_of};
use crate::order::{key_of, lemma_stable_sort_map, push_texts_key, sort_by_key, stable_sort_by, texts_key, SortKey};
use crate::text::{chars_of, joined, lower_text, owned, push_str, string_of, text_eq, to_lower, views};

verus! {

/// A corpus that breaks a rule, with the reason.
#[derive(Debug, Clone, PartialEq, Eq)]
pub struct CorpusError {
    message: String,
}

impl View for CorpusError {
    type V = Seq<char>;

    closed spec fn view(&self) -> Seq<char> {
        self.message@
    }
}

impl CorpusError {
    pub fn invalid(message: String) -> (r: CorpusError)
        ensures
            r@ == message@,
    {
        CorpusError { message }
    }

    pub fn message(&self) -> (r: &str)
        ensures
            r@ == self@,
    {
        self.message.as_str()
    }
}

// ---- entries of a case directory ----

pub open spec fn allowed_case_entry(name: Seq<char>) -> bool {
    name == "fixture"@ || name == "golden.yaml"@ || name == "provenance.json"@ || name == "specimen.yaml"@
}

pub open spec fn string_key_fn() -> spec_fn(String) -> Seq<u32> {
    key_of::<String>()
}

/// The first entry, in name order, that a case may not hold.
pub open spec fn first_unsupported(names: Seq<String>, i: int) -> Option<Seq<char>>
    decreases names.len() - i,
{
    if i < 0 || i >= names.len() {
        None
    } else if !allowed_case_entry(names[i]@) {
        Some(names[i]@)
    } else {
        first_unsupported(names, i + 1)
    }
}

/// Why a case directory with the given entries is refused, if it is: an entry
/// other than `fixture`, `golden.yaml`, `provenance.json` and `specimen.yaml`
/// (the first in name order), else a missing `fixture`, `golden.yaml` or
/// `specimen.yaml` (in that order).
pub open spec fn case_entries_problem(root: Seq<char>, names: Seq<String>) -> Option<Seq<char>> {
    let sorted = stable_sort_by(names, string_key_fn());
    let present = views(names);
    match first_unsupported(sorted, 0) {
        Some(n) => Some("case "@ + root + " contains executable or unsupported entry "@ + n),
        None => if !present.contains("fixture"@) {
            Some("case "@ + root + " is missing "@ + "fixture"@)
        } else if !present.contains("golden.yaml"@) {
            Some("case "@ + root + " is missing "@ + "golden.yaml"@)
        } else if !present.contains("specimen.yaml"@) {
            Some("case "@ + root + " is missing "@ + "specimen.yaml"@)
        } else {
            None
        },
    }
}

fn holds_name(names: &Vec<String>, name: &str) -> (r: bool)
    ensures
        r == views(names@).contains(name@),
{
    let mut i: usize = 0;
    while i < names.len()
        invariant
            i <= names.len(),
            forall|k: int| 0 <= k < i ==> names@[k]@ != name@,
        decreases names.len() - i,
    {
        if text_eq(names[i].as_str(), name) {
            assert(views(names@)[i as int] == name@);
            return true;
        }
        i = i + 1;
    }
    proof {
        if views(names@).contains(name@) {
            let k = choose|k: int| 0 <= k < views(names@).len() && views(names@)[k] == name@;
            assert(names@[k]@ == name@);
        }
    }
    false
}

/// Checks the entries (names) of a case directory.
pub fn validate_case_entries(root: &str, names: Vec<String>) -> (r: Result<(), CorpusError>)
    ensures
        match case_entries_problem(root@, names@) {
            Some(m) => r matches Err(e) && e@ == m,
            None => r is Ok,
        },
{
    let ghost given = names@;
    let present = crate::text::clone_texts(&names);
    let sorted = sort_by_key(names);
    let mut i: usize = 0;
    assert(first_unsupported(sorted@, 0) == first_unsupported(sorted@, 0));
    while i < sorted.len()
        invariant
            i <= sorted@.len(),
            given == names@,
            sorted@ == stable_sort_by(given, string_key_fn()),
            first_unsupported(sorted@, 0) == first_unsupported(sorted@, i as int),
        decreases sorted.len() - i,
    {
        let n = sorted[i].as_str();
        if !(text_eq(n, "fixture") || text_eq(n, "golden.yaml") || text_eq(n, "provenance.json") || text_eq(
            n,
            "specimen.yaml",
        )) {
            assert(first_unsupported(sorted@, i as int) == Some(sorted@[i as int]@));
            let mut m = owned("case ");
            push_str(&mut m, root);
            push_str(&mut m, " contains executable or unsupported entry ");
            push_str(&mut m, n);
            return Err(CorpusError::invalid(m));
        }
        i = i + 1;
    }
    assert(views(present@) == views(given));
    let missing = if !holds_name(&present, "fixture") {
        Some("fixture")
    } else if !holds_name(&present, "golden.yaml") {
        Some("golden.yaml")
    } else if !holds_name(&present, "specimen.yaml") {
        Some("specimen.yaml")
    } else {
        None
    };
    match missing {
        Some(required) => {
            let mut m = owned("case ");
            push_str(&mut m, root);
            push_str(&mut m, " is missing ");
            push_str(&mut m, required);
            Err(CorpusError::invalid(m))
        },
        None => Ok(()),
    }
}

// ---- case metadata ----

pub open spec fn case_id(repository: Seq<char>, scenario: Seq<char>, case_name: Seq<char>) -> Seq<char> {
    repository + "/"@ + scenario + "/"@ + case_name
}

/// The id of a case at `repository/scenario/case_name`, provided its specimen
/// names the same id, repository and scenario.
pub open spec fn case_metadata(
    repository: Seq<char>,
    scenario: Seq<char>,
    case_name: Seq<char>,
    specimen: SpecimenV1,
) -> Result<Seq<char>, Seq<char>> {
    let id = case_id(repository, scenario, case_name);
    if specimen.id@ != id || specimen.repository@ != repository || specimen.scenario@ != scenario {
        Err("case metadata does not match path "@ + id)
    } else {
        Ok(id)
    }
}

/// Checks that a case's specimen agrees with where the case lies, and gives
/// the case id.
pub fn check_case_metadata(repository: &str, scenario: &str, case_name: &str, specimen: &SpecimenV1) -> (r: Result<
    String,
    CorpusError,
>)
    ensures
        match case_metadata(repository@, scenario@, case_name@, *specimen) {
            Ok(id) => r matches Ok(x) && x@ == id,
            Err(m) => r matches Err(e) && e@ == m,
        },
{
    let mut id = owned(repository);
    push_str(&mut id, "/");
    push_str(&mut id, scenario);
    push_str(&mut id, "/");
    push_str(&mut id, case_name);
    if !text_eq(specimen.id.as_str(), id.as_str()) || !text_eq(specimen.repository.as_str(), repository) || !text_eq(
        specimen.scenario.as_str(),
        scenario,
    ) {
        let mut m = owned("case metadata does not match path ");
        push_str(&mut m, id.as_str());
        return Err(CorpusError::invalid(m));
    }
    Ok(id)
}

// ---- fixture files ----

/// A regular file found under a case's `fixture/` directory: its path below
/// the case root, as components, and its bytes or the read failure.
pub struct FixtureListing {
    pub relative: Vec<String>,
    pub bytes: Result<Vec<u8>, String>,
}

impl SortKey for FixtureListing {
    open spec fn sort_key(&self) -> Seq<u32> {
        texts_key(views(self.relative@))
    }

    fn sort_key_exec(&self) -> (k: Vec<u32>) {
        let mut k: Vec<u32> = Vec::new();
        push_texts_key(&mut k, self.relative.as_slice());
        k
    }
}

/// The number of distinct declared fixture paths among the first `n` files.
pub open spec fn distinct_upto(files: Seq<FixtureFileV1>, n: int) -> nat
    decreases n,
{
    if n <= 0 {
        0
    } else {
        distinct_upto(files, n - 1) + if declared_after(files, files[n - 1].fixture_path@, n) {
            0nat
        } else {
            1nat
        }
    }
}

/// Some file after index `j - 1` declares the path `p`.
pub open spec fn declared_after(files: Seq<FixtureFileV1>, p: Seq<char>, j: int) -> bool {
    exists|k: int| j <= k < files.len() && #[trigger] files[k].fixture_path@ == p
}

/// The declaration that governs a path: the last one that names it.
pub open spec fn declaration_of(files: Seq<FixtureFileV1>, p: Seq<char>, n: int) -> Option<FixtureFileV1>
    decreases n,
{
    if n <= 0 || n > files.len() {
        None
    } else if files[n - 1].fixture_path@ == p {
        Some(files[n - 1])
    } else {
        declaration_of(files, p, n - 1)
    }
}

/// The first problem among the first `n` committed files, in path order.
pub open spec fn committed_problem(files: Seq<FixtureFileV1>, listing: Seq<FixtureListing>, n: int) -> Option<Seq<char>>
    decreases n,
{
    if n <= 0 || n > listing.len() {
        None
    } else {
        match committed_problem(files, listing, n - 1) {
            Some(m) => Some(m),
            None => {
                let l = listing[n - 1];
                let rel = joined(views(l.relative@), "/"@);
                match declaration_of(files, rel, files.len() as int) {
                    None => Some("undeclared fixture file: "@ + rel),
                    Some(d) => match l.bytes {
                        Err(m) => Some(m@),
                        Ok(b) => if hex_text(sha256_of(b@)) != lower_text(d.sha256@) {
                            Some("fixture SHA-256 mismatch for "@ + rel)
                        } else {
                            None
                        },
                    },
                }
            },
        }
    }
}

/// Why the committed fixture files of a case do not match its declarations,
/// if they do not: a different number of files than of declared paths, else
/// (in path order) a file that no declaration names, a file that cannot be
/// read, or a file whose SHA-256 differs from the declared one.
pub open spec fn fixture_problem(root: Seq<char>, files: Seq<FixtureFileV1>, listing: Seq<FixtureListing>) -> Option<
    Seq<char>,
> {
    if listing.len() != distinct_upto(files, files.len() as int) {
        Some("case "@ + root + " fixture declaration count does not match committed files"@)
    } else {
        committed_problem(files, stable_sort_by(listing, key_of::<FixtureListing>()), listing.len() as int)
    }
}

fn later_declares(files: &[FixtureFileV1], p: &str, j: usize) -> (r: bool)
    requires
        j <= files@.len(),
    ensures
        r == declared_after(files@, p@, j as int),
{
    let mut k: usize = j;
    while k < files.len()
        invariant
            j <= k <= files@.len(),
            forall|m: int| j <= m < k ==> files@[m].fixture_path@ != p@,
        decreases files.len() - k,
    {
        if text_eq(files[k].fixture_path.as_str(), p) {
            return true;
        }
        k = k + 1;
    }
    false
}

fn distinct_declared(files: &[FixtureFileV1]) -> (r: usize)
    ensures
        r == distinct_upto(files@, files@.len() as int),
{
    let mut count: usize = 0;
    let mut i: usize = 0;
    while i < files.len()
        invariant
            i <= files@.len(),
            count == distinct_upto(files@, i as int),
            count <= i,
        decreases files.len() - i,
    {
        if !later_declares(files, files[i].fixture_path.as_str(), i + 1) {
            count = count + 1;
        }
        i = i + 1;
    }
    count
}

fn find_declaration(files: &[FixtureFileV1], p: &str) -> (r: Option<usize>)
    ensures
        match declaration_of(files@, p@, files@.len() as int) {
            Some(d) => r matches Some(k) && k < files@.len() && files@[k as int] == d,
            None => r is None,
        },
{
    let mut n: usize = files.len();
    while n > 0
        invariant
            n <= files@.len(),
            declaration_of(files@, p@, files@.len() as int) == declaration_of(files@, p@, n as int),
        decreases n,
    {
        if text_eq(files[n - 1].fixture_path.as_str(), p) {
            return Some(n - 1);
        }
        n = n - 1;
    }
    None
}

/// Checks that the committed fixture files of a case are exactly the declared
/// ones, with the declared digests.
pub fn validate_fixture_bytes(root: &str, files: &[FixtureFileV1], listing: Vec<FixtureListing>) -> (r: Result<
    (),
    CorpusError,
>)
    ensures
        match fixture_problem(root@, files@, listing@) {
            Some(m) => r matches Err(e) && e@ == m,
            None => r is Ok,
        },
{
    if listing.len() != distinct_declared(files) {
        let mut m = owned("case ");
        push_str(&mut m, root);
        push_str(&mut m, " fixture declaration count does not match committed files");
        return Err(CorpusError::invalid(m));
    }
    let ghost n = listing@.len();
    let sorted = sort_by_key(listing);
    assert(sorted@.len() == n) by {
        crate::order::lemma_stable_sort_contains(listing@, key_of::<FixtureListing>());
    }
    let mut i: usize = 0;
    while i < sorted.len()
        invariant
            i <= sorted@.len(),
            sorted@.len() == n,
            n == listing@.len(),
            sorted@ == stable_sort_by(listing@, key_of::<FixtureListing>()),
            listing@.len() == distinct_upto(files@, files@.len() as int),
            committed_problem(files@, sorted@, i as int) is None,
        decreases sorted.len() - i,
    {
        let l = &sorted[i];
        let rel = crate::text::join(l.relative.as_slice(), "/");
        let d = match find_declaration(files, rel.as_str()) {
            None => {
                let mut m = owned("undeclared fixture file: ");
                push_str(&mut m, rel.as_str());
                proof {
                    lemma_committed_problem_stays(files@, sorted@, i + 1, n as int);
                }
                return Err(CorpusError::invalid(m));
            },
            Some(d) => d,
        };
        match &l.bytes {
            Err(m) => {
                proof {
                    lemma_committed_problem_stays(files@, sorted@, i + 1, n as int);
                }
                return Err(CorpusError::invalid(m.clone()));
            },
            Ok(b) => {
                let digest = sha256(b.as_slice());
                let declared = to_lower(chars_of(files[d].sha256.as_str()).as_slice());
                let declared = string_of(declared.as_slice());
                if !text_eq(digest.as_str(), declared.as_str()) {
                    let mut m = owned("fixture SHA-256 mismatch for ");
                    push_str(&mut m, rel.as_str());
                    proof {
                        lemma_committed_problem_stays(files@, sorted@, i + 1, n as int);
                    }
                    return Err(CorpusError::invalid(m));
                }
            },
        }
        i = i + 1;
    }
    Ok(())
}

proof fn lemma_committed_problem_stays(files: Seq<FixtureFileV1>, listing: Seq<FixtureListing>, k: int, n: int)
    requires
        0 < k <= n <= listing.len(),
        committed_problem(files, listing, k) is Some,
    ensures
        committed_problem(files, listing, n) == committed_problem(files, listing, k),
    decreases n - k,
{
    if n > k {
        lemma_committed_problem_stays(files, listing, k, n - 1);
    }
}

// ---- the order of cases ----

impl SortKey for BenchmarkCase {
    open spec fn sort_key(&self) -> Seq<u32> {
        crate::order::text_key(self.id@)
    }

    fn sort_key_exec(&self) -> (k: Vec<u32>) {
        let mut k: Vec<u32> = Vec::new();
        crate::order::push_text_key(&mut k, self.id.as_str());
        k
    }
}

/// Orders the cases of a corpus by id.
pub fn order_cases(cases: Vec<BenchmarkCase>) -> (r: Vec<BenchmarkCase>)
    ensures
        r@ == stable_sort_by(cases@, key_of::<BenchmarkCase>()),
{
    sort_by_key(cases)
}

} // verus!
