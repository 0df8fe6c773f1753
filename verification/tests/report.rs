use chirograph::benchmark::aggregate::{micro_counts, scope_groups, scope_scores};
use chirograph::benchmark::baseline::{baseline_entries, check_baseline_schema};
use chirograph::benchmark::model::GoldenV1;
use chirograph::benchmark::runner::{classify_run, declares_workspace, stderr_diagnostics, CaseRun, RunOutcome};
use chirograph::benchmark::score::{CaseCounts, CaseStatus, Counts, ObservedGraph};

const EMPTY_SHA256: &str = "e3b0c44298fc1c149afbf4c8996fb92427ae41e4649b934ca495991b7852b855";

fn golden() -> GoldenV1 {
    GoldenV1 {
        schema: "chirograph-benchmark-golden-v1".to_owned(),
        contracts: Vec::new(),
        representations: Vec::new(),
        authority_claims: Vec::new(),
        relationships: Vec::new(),
        clauses: Vec::new(),
        lifecycle: Vec::new(),
        expected_findings: Vec::new(),
        non_contracts: Vec::new(),
    }
}

fn empty_graph() -> ObservedGraph {
    ObservedGraph {
        contracts: Vec::new(),
        representations: Vec::new(),
        relations: Vec::new(),
        authority_claims: Vec::new(),
        clause_assessments: Vec::new(),
        lifecycle: Vec::new(),
    }
}

fn finished(success: bool, stderr: &[u8], graph: Result<(String, ObservedGraph), String>) -> RunOutcome {
    RunOutcome::Finished { success, exit_code: "7".to_owned(), stderr: stderr.to_vec(), graph }
}

fn counts(numerator: u64, denominator: u64) -> Counts {
    Counts { numerator, denominator }
}

fn case_counts(matches: u64, emitted: u64, golden: u64, lifecycle: Option<Counts>) -> CaseCounts {
    CaseCounts {
        contract_precision: counts(matches, emitted),
        contract_recall: counts(matches, golden),
        false_contract_rate: counts(emitted - matches, emitted),
        authority_correctness: counts(matches, golden),
        relationship_precision: counts(matches, emitted),
        relationship_recall: counts(matches, golden),
        lifecycle_correctness: lifecycle,
        finding_precision: counts(matches, emitted),
        finding_recall: counts(matches, golden),
        diagnostics: Vec::new(),
    }
}

#[test]
fn classifies_process_outcomes_fail_closed() {
    let spawn = classify_run(&golden(), RunOutcome::SpawnFailed("no such file".to_owned()));
    assert_eq!(spawn.status, CaseStatus::ExecutionFailure);
    assert!(spawn.counts.is_none());
    assert_eq!(spawn.diagnostics, vec!["process_spawn:no such file".to_owned()]);

    let nonzero = classify_run(&golden(), finished(false, b"provider exploded\n", Err("unused".to_owned())));
    assert_eq!(nonzero.status, CaseStatus::ExecutionFailure);
    assert!(nonzero.counts.is_none());
    assert_eq!(nonzero.diagnostics, vec!["process_exit:7".to_owned(), "stderr:provider exploded".to_owned()]);

    let malformed = classify_run(&golden(), finished(true, b"", Err("expected value at line 1".to_owned())));
    assert_eq!(malformed.status, CaseStatus::InvalidOutput);
    assert!(malformed.counts.is_none());
    assert_eq!(malformed.diagnostics, vec!["invalid_graph_json:expected value at line 1".to_owned()]);

    let wrong = classify_run(&golden(), finished(true, b"", Ok(("wrong-schema".to_owned(), empty_graph()))));
    assert_eq!(wrong.status, CaseStatus::InvalidOutput);
    assert!(wrong.counts.is_none());
    assert_eq!(wrong.diagnostics, vec!["wrong_graph_schema".to_owned()]);

    let valid = classify_run(&golden(), finished(true, b"", Ok(("chirograph-graph-v1".to_owned(), empty_graph()))));
    assert_eq!(valid.status, CaseStatus::Scored);
    let scored = valid.counts.expect("scored counts");
    assert_eq!(scored.contract_precision, counts(0, 0));
    assert!(valid.diagnostics.is_empty());
}

#[test]
fn standard_error_is_trimmed_and_capped() {
    assert!(stderr_diagnostics(b"").is_empty());
    assert!(stderr_diagnostics(b" \n\t ").is_empty());
    assert_eq!(stderr_diagnostics(b"  warning: slow\n"), vec!["stderr:warning: slow".to_owned()]);

    let mut long = vec![b'x'; 4096];
    long.extend_from_slice(b"tail");
    let notes = stderr_diagnostics(&long);
    assert_eq!(notes.len(), 1);
    assert!(notes[0].starts_with("stderr:truncated:xxx"));
    assert_eq!(notes[0].len(), "stderr:truncated:".len() + 4096);
    assert!(!notes[0].contains("tail"));
}

#[test]
fn scopes_group_cases_in_key_order() {
    let keys = vec!["zeta".to_owned(), "alpha".to_owned(), "zeta".to_owned(), "beta".to_owned()];
    let groups = scope_groups(&keys);
    assert_eq!(
        groups,
        vec![
            ("alpha".to_owned(), vec![1]),
            ("beta".to_owned(), vec![3]),
            ("zeta".to_owned(), vec![0, 2]),
        ]
    );
    assert!(scope_groups(&Vec::new()).is_empty());
}

#[test]
fn micro_counts_pool_without_averaging() {
    let large = case_counts(100, 100, 100, None);
    let small = case_counts(0, 1, 1, Some(counts(1, 2)));
    let pooled = micro_counts(&[&large, &small]);
    assert_eq!(pooled.contract_precision, counts(100, 101));
    assert_eq!(pooled.contract_recall, counts(100, 101));
    assert_eq!(pooled.false_contract_rate, counts(1, 101));
    assert_eq!(pooled.finding_recall, counts(100, 101));
    assert_eq!(pooled.lifecycle_correctness, Some(counts(1, 2)));
    assert!(pooled.diagnostics.is_empty());

    let none = micro_counts(&[&large]);
    assert_eq!(none.lifecycle_correctness, None);

    let huge = case_counts(u64::MAX, u64::MAX, u64::MAX, None);
    let saturated = micro_counts(&[&huge, &large]);
    assert_eq!(saturated.contract_precision, counts(u64::MAX, u64::MAX));
}

#[test]
fn scope_scores_skip_unscored_cases() {
    let runs = vec![
        CaseRun { status: CaseStatus::Scored, counts: Some(case_counts(1, 1, 1, None)), diagnostics: Vec::new() },
        CaseRun { status: CaseStatus::ExecutionFailure, counts: None, diagnostics: Vec::new() },
        CaseRun { status: CaseStatus::Scored, counts: Some(case_counts(0, 2, 3, None)), diagnostics: Vec::new() },
    ];
    let scores = scope_scores(&runs, &[2, 1, 0]);
    assert_eq!(scores.len(), 2);
    assert_eq!(scores[0].contract_recall, counts(0, 3));
    assert_eq!(scores[1].contract_recall, counts(1, 1));
}

#[test]
fn baseline_entries_pair_cases_with_results_by_id() {
    let cases = vec!["repo/b/case".to_owned(), "repo/a/case".to_owned()];
    let files = vec![Ok((Vec::new(), b"abc".to_vec())), Ok((Vec::new(), Vec::new()))];
    let entries = baseline_entries(&cases, &cases.clone(), &files).expect("entries");
    assert_eq!(entries.len(), 2);
    assert_eq!(entries[0].id, "repo/a/case");
    assert_eq!(entries[0].position, 1);
    assert_eq!(entries[0].specimen_sha256, EMPTY_SHA256);
    assert_eq!(entries[1].id, "repo/b/case");
    assert_eq!(entries[1].position, 0);
    assert_eq!(entries[1].golden_sha256, "ba7816bf8f01cfea414140de5dae2223b00361a396177a9cb410ff61f20015ad");

    let short = baseline_entries(&cases, &vec!["repo/b/case".to_owned()], &files).map(|_| ()).unwrap_err();
    assert_eq!(short, "baseline cases and results must have equal length");

    let swapped = vec!["repo/b/case".to_owned(), "repo/c/case".to_owned()];
    let mismatch = baseline_entries(&cases, &swapped, &files).map(|_| ()).unwrap_err();
    assert_eq!(mismatch, "baseline case/result mismatch: repo/a/case != repo/c/case");

    let unreadable = vec![Ok((Vec::new(), Vec::new())), Err("cannot read golden.yaml: gone".to_owned())];
    let error = baseline_entries(&cases, &cases.clone(), &unreadable).map(|_| ()).unwrap_err();
    assert_eq!(error, "cannot read golden.yaml: gone");
}

#[test]
fn baseline_schema_is_checked_by_name() {
    assert!(check_baseline_schema("chirograph-benchmark-baseline-v1").is_ok());
    assert_eq!(
        check_baseline_schema("chirograph-benchmark-baseline-v0"),
        Err("unsupported benchmark baseline schema: chirograph-benchmark-baseline-v0".to_owned())
    );
}

#[test]
fn workspace_manifests_are_recognized_by_a_trimmed_line() {
    assert!(declares_workspace("[workspace]\nmembers = []\n"));
    assert!(declares_workspace("[package]\nname = \"x\"\n\n  [workspace]  \r\n"));
    assert!(declares_workspace("[workspace]"));
    assert!(!declares_workspace("[package]\nname = \"workspace\"\n"));
    assert!(!declares_workspace("[workspace.dependencies]\n"));
    assert!(!declares_workspace("# [workspace] is not declared here\n"));
    assert!(!declares_workspace(""));
}
