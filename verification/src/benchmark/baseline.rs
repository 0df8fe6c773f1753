//! Benchmark baselines: the pinned digests of each case's specimen and golden
//! files next to its result, one entry per case, ordered by case id.

use vstd::prelude::*;
use crate::benchmark::source::{hex_text, sha256, sha256_of};
use crate::order::{key_of, lemma_stable_sort_map, push_text_key, sort_by_key, stable_sort_by, text_key, SortKey};
use crate::text::{owned, push_str, text_eq, views};

verus! {

/// The schema name of a baseline document.
pub open spec fn baseline_schema() -> Seq<char> {
    "chirograph-benchmark-baseline-v1"@
}

pub fn baseline_schema_name() -> (r: &'static str)
    ensures
        r@ == baseline_schema(),
{
    "chirograph-benchmark-baseline-v1"
}

/// Accepts a baseline document only under its schema name.
pub fn check_baseline_schema(schema: &str) -> (r: Result<(), String>)
    ensures
        r is Ok <==> schema@ == baseline_schema(),
        r matches Err(m) ==> m@ == "unsupported benchmark baseline schema: "@ + schema@,
{
    if text_eq(schema, baseline_schema_name()) {
        Ok(())
    } else {
        let mut m = owned("unsupported benchmark baseline schema: ");
        push_str(&mut m, schema);
        Err(m)
    }
}

/// The case part of a baseline entry: the case id, the digests of its
/// specimen and golden files, and the position of its result.
pub struct BaselineEntry {
    pub id: String,
    pub specimen_sha256: String,
    pub golden_sha256: String,
    pub position: usize,
}

impl SortKey for BaselineEntry {
    open spec fn sort_key(&self) -> Seq<u32> {
        text_key(self.id@)
    }

    fn sort_key_exec(&self) -> (k: Vec<u32>) {
        let mut k: Vec<u32> = Vec::new();
        push_text_key(&mut k, self.id.as_str());
        assert(k@ =~= text_key(self.id@));
        k
    }
}

pub type EntryView = (Seq<char>, Seq<char>, Seq<char>, usize);

pub open spec fn entry_view(e: BaselineEntry) -> EntryView {
    (e.id@, e.specimen_sha256@, e.golden_sha256@, e.position)
}

pub open spec fn entry_view_fn() -> spec_fn(BaselineEntry) -> EntryView {
    |e: BaselineEntry| entry_view(e)
}

pub open spec fn row_key_fn() -> spec_fn(EntryView) -> Seq<u32> {
    |r: EntryView| text_key(r.0)
}

/// The digest text of some bytes: SHA-256 as lowercase hexadecimal.
pub open spec fn digest_text(bytes: Seq<u8>) -> Seq<char> {
    hex_text(sha256_of(bytes))
}

/// The first problem among the first `n` cases: a case whose result belongs
/// to another case, or a case whose files could not be read.
pub open spec fn baseline_problem(
    case_ids: Seq<Seq<char>>,
    result_ids: Seq<Seq<char>>,
    files: Seq<Result<(Vec<u8>, Vec<u8>), String>>,
    n: int,
) -> Option<Seq<char>>
    decreases n,
{
    if n <= 0 {
        None
    } else {
        match baseline_problem(case_ids, result_ids, files, n - 1) {
            Some(m) => Some(m),
            None => if case_ids[n - 1] != result_ids[n - 1] {
                Some("baseline case/result mismatch: "@ + case_ids[n - 1] + " != "@ + result_ids[n - 1])
            } else {
                match files[n - 1] {
                    Err(m) => Some(m@),
                    Ok(_) => None,
                }
            },
        }
    }
}

/// The entry of each case, in case order.
pub open spec fn baseline_rows(case_ids: Seq<Seq<char>>, files: Seq<Result<(Vec<u8>, Vec<u8>), String>>) -> Seq<
    EntryView,
> {
    Seq::new(
        case_ids.len(),
        |k: int|
            (
                case_ids[k],
                digest_text(files[k]->Ok_0.0@),
                digest_text(files[k]->Ok_0.1@),
                k as usize,
            ),
    )
}

pub open spec fn equal_length_message() -> Seq<char> {
    "baseline cases and results must have equal length"@
}

/// Builds the case entries of a baseline from the cases, the ids of their
/// results, and the bytes of each case's specimen and golden files (or why
/// they could not be read). The entries are ordered by case id; cases with
/// equal ids keep their order.
pub fn baseline_entries(
    case_ids: &Vec<String>,
    result_ids: &Vec<String>,
    files: &Vec<Result<(Vec<u8>, Vec<u8>), String>>,
) -> (r: Result<Vec<BaselineEntry>, String>)
    requires
        files@.len() == case_ids@.len(),
    ensures
        case_ids@.len() != result_ids@.len() ==> (r matches Err(m) && m@ == equal_length_message()),
        case_ids@.len() == result_ids@.len() ==> match baseline_problem(
            views(case_ids@),
            views(result_ids@),
            files@,
            case_ids@.len() as int,
        ) {
            Some(m) => r matches Err(e) && e@ == m,
            None => r matches Ok(v) && v@.map_values(entry_view_fn()) == stable_sort_by(
                baseline_rows(views(case_ids@), files@),
                row_key_fn(),
            ),
        },
{
    if case_ids.len() != result_ids.len() {
        return Err(owned("baseline cases and results must have equal length"));
    }
    let ghost cv = views(case_ids@);
    let ghost rv = views(result_ids@);
    let mut entries: Vec<BaselineEntry> = Vec::new();
    let mut k: usize = 0;
    while k < case_ids.len()
        invariant
            k <= case_ids@.len(),
            case_ids@.len() == result_ids@.len(),
            files@.len() == case_ids@.len(),
            cv == views(case_ids@),
            rv == views(result_ids@),
            baseline_problem(cv, rv, files@, k as int) is None,
            entries@.map_values(entry_view_fn()) == baseline_rows(cv, files@).take(k as int),
        decreases case_ids.len() - k,
    {
        if !text_eq(case_ids[k].as_str(), result_ids[k].as_str()) {
            let mut m = owned("baseline case/result mismatch: ");
            push_str(&mut m, case_ids[k].as_str());
            push_str(&mut m, " != ");
            push_str(&mut m, result_ids[k].as_str());
            proof {
                lemma_problem_stays(cv, rv, files@, k as int + 1, case_ids@.len() as int);
            }
            return Err(m);
        }
        match &files[k] {
            Err(m) => {
                proof {
                    lemma_problem_stays(cv, rv, files@, k as int + 1, case_ids@.len() as int);
                }
                return Err(m.clone());
            },
            Ok((specimen, golden)) => {
                let entry = BaselineEntry {
                    id: case_ids[k].clone(),
                    specimen_sha256: sha256(specimen.as_slice()),
                    golden_sha256: sha256(golden.as_slice()),
                    position: k,
                };
                let ghost before = entries@;
                entries.push(entry);
                assert(entries@.map_values(entry_view_fn()) =~= baseline_rows(cv, files@).take(k as int + 1)) by {
                    assert(before.map_values(entry_view_fn()) =~= baseline_rows(cv, files@).take(k as int));
                    assert(entries@ == before.push(entry));
                    assert(files@[k as int] == Ok::<(Vec<u8>, Vec<u8>), String>((*specimen, *golden)));
                    assert(cv[k as int] == case_ids@[k as int]@);
                    assert(entry_view(entry) == baseline_rows(cv, files@)[k as int]);
                    assert(before.map_values(entry_view_fn()).len() == before.len());
                    assert(baseline_rows(cv, files@).len() == cv.len());
                    assert(before.len() == k);
                };
            },
        }
        k = k + 1;
    }
    assert(baseline_rows(cv, files@).take(k as int) =~= baseline_rows(cv, files@));
    let ghost unsorted = entries@;
    let sorted = sort_by_key(entries);
    proof {
        lemma_stable_sort_map(unsorted, key_of::<BaselineEntry>(), entry_view_fn(), row_key_fn());
    }
    Ok(sorted)
}

proof fn lemma_problem_stays(
    case_ids: Seq<Seq<char>>,
    result_ids: Seq<Seq<char>>,
    files: Seq<Result<(Vec<u8>, Vec<u8>), String>>,
    k: int,
    n: int,
)
    requires
        0 <= k <= n,
    ensures
        baseline_problem(case_ids, result_ids, files, k) is Some ==> baseline_problem(case_ids, result_ids, files, n)
            == baseline_problem(case_ids, result_ids, files, k),
    decreases n - k,
{
    if k < n {
        lemma_problem_stays(case_ids, result_ids, files, k, n - 1);
    }
}

} // verus!
