use chirograph::benchmark::corpus::{
    check_case_metadata, order_cases, validate_case_entries, validate_fixture_bytes, CorpusError, FixtureListing,
};
use chirograph::benchmark::model::{BenchmarkCase, FixtureFileV1, GoldenV1, SpecimenV1, UpstreamV1};
use chirograph::benchmark::runner::analyze_arguments;
use chirograph::benchmark::selector::select_cases;
use chirograph::cli::{parse_cli, CliCommand};
use chirograph::benchmark::source::{
    fetch_requests, sha256, stage_refresh, stage_refreshes, verify_sources, SourceError, SourceFetcher,
};
use std::cell::RefCell;

const SPECIMEN_SCHEMA: &str = "chirograph-benchmark-specimen-v1";
const GOLDEN_SCHEMA: &str = "chirograph-benchmark-golden-v1";

fn specimen(id: &str, repository: &str, scenario: &str, files: Vec<FixtureFileV1>) -> SpecimenV1 {
    SpecimenV1 {
        schema: SPECIMEN_SCHEMA.to_owned(),
        id: id.to_owned(),
        repository: repository.to_owned(),
        scenario: scenario.to_owned(),
        upstream: UpstreamV1 {
            repository: format!("example/{repository}"),
            revision: "0123456789abcdef0123456789abcdef01234567".to_owned(),
        },
        files,
    }
}

fn case(id: &str, repository: &str, scenario: &str) -> BenchmarkCase {
    BenchmarkCase {
        id: id.to_owned(),
        repository: repository.to_owned(),
        scenario: scenario.to_owned(),
        root: id.to_owned(),
        fixture_dir: format!("{id}/fixture"),
        specimen_path: format!("{id}/specimen.yaml"),
        golden_path: format!("{id}/golden.yaml"),
        specimen: specimen(id, repository, scenario, Vec::new()),
        golden: GoldenV1 {
            schema: GOLDEN_SCHEMA.to_owned(),
            contracts: Vec::new(),
            representations: Vec::new(),
            authority_claims: Vec::new(),
            relationships: Vec::new(),
            clauses: Vec::new(),
            lifecycle: Vec::new(),
            expected_findings: Vec::new(),
            non_contracts: Vec::new(),
        },
    }
}

fn ids(cases: Vec<&BenchmarkCase>) -> Vec<&str> {
    cases.into_iter().map(|case| case.id.as_str()).collect()
}

fn fixture_cases() -> Vec<BenchmarkCase> {
    vec![
        case("kafka/message-spec-generation/case-b", "kafka", "message-spec-generation"),
        case("cargo/schema-enum-drift/case-b", "cargo", "schema-enum-drift"),
        case("cargo/schema-enum-drift/case-a", "cargo", "schema-enum-drift"),
    ]
}

#[test]
fn selects_supported_dimensions_in_lexical_order() {
    let cases = fixture_cases();

    assert_eq!(
        ids(select_cases(&cases, "all").expect("all cases")),
        vec![
            "cargo/schema-enum-drift/case-a",
            "cargo/schema-enum-drift/case-b",
            "kafka/message-spec-generation/case-b",
        ]
    );
    assert_eq!(
        ids(select_cases(&cases, "cargo").expect("repository")),
        vec!["cargo/schema-enum-drift/case-a", "cargo/schema-enum-drift/case-b"]
    );
    assert_eq!(
        ids(select_cases(&cases, "scenario:schema-enum-drift").expect("scenario")),
        vec!["cargo/schema-enum-drift/case-a", "cargo/schema-enum-drift/case-b"]
    );
    assert_eq!(
        ids(select_cases(&cases, "cargo/schema-enum-drift").expect("repository/scenario")),
        vec!["cargo/schema-enum-drift/case-a", "cargo/schema-enum-drift/case-b"]
    );
    assert_eq!(
        ids(select_cases(&cases, "cargo/schema-enum-drift/case-a").expect("exact case")),
        vec!["cargo/schema-enum-drift/case-a"]
    );
}

#[test]
fn rejects_unknown_zero_match_and_invalid_selectors() {
    let cases = fixture_cases();

    for selector in [
        "unknown",
        "scenario:unknown",
        "cargo/unknown",
        "cargo/schema-enum-drift/unknown",
        "cargo/schema-enum-drift/case-a/extra",
        "",
    ] {
        assert!(select_cases(&cases, selector).is_err(), "selector should fail: {selector:?}");
    }
}

#[test]
fn cases_are_ordered_by_id() {
    let ordered = order_cases(fixture_cases());
    let ids = ordered.iter().map(|case| case.id.as_str()).collect::<Vec<_>>();
    assert_eq!(
        ids,
        vec![
            "cargo/schema-enum-drift/case-a",
            "cargo/schema-enum-drift/case-b",
            "kafka/message-spec-generation/case-b",
        ]
    );
}

fn names(values: &[&str]) -> Vec<String> {
    values.iter().map(|value| (*value).to_owned()).collect()
}

#[test]
fn case_directories_hold_only_data_entries() {
    assert!(validate_case_entries("case", names(&["specimen.yaml", "fixture", "golden.yaml"])).is_ok());
    assert!(validate_case_entries("case", names(&["provenance.json", "specimen.yaml", "fixture", "golden.yaml"]))
        .is_ok());
    let error = validate_case_entries("case", names(&["run.sh", "fixture", "golden.yaml", "build.rs"])).unwrap_err();
    assert_eq!(error.message(), "case case contains executable or unsupported entry build.rs");
    let error = validate_case_entries("case", names(&["fixture", "specimen.yaml"])).unwrap_err();
    assert_eq!(error.message(), "case case is missing golden.yaml");
}

#[test]
fn case_metadata_must_match_its_path() {
    let good = specimen("cargo/drift/case-a", "cargo", "drift", Vec::new());
    assert_eq!(check_case_metadata("cargo", "drift", "case-a", &good), Ok("cargo/drift/case-a".to_owned()));
    let moved = specimen("cargo/drift/case-a", "cargo", "drift", Vec::new());
    let error = check_case_metadata("cargo", "other", "case-a", &moved).unwrap_err();
    assert_eq!(error.message(), "case metadata does not match path cargo/other/case-a");
}

fn fixture(path: &str, bytes: &[u8]) -> FixtureFileV1 {
    FixtureFileV1 { fixture_path: path.to_owned(), upstream_path: path.to_owned(), sha256: sha256(bytes) }
}

fn listing(path: &[&str], bytes: &[u8]) -> FixtureListing {
    FixtureListing { relative: names(path), bytes: Ok(bytes.to_vec()) }
}

#[test]
fn sha256_is_lowercase_hex_of_the_digest() {
    assert_eq!(sha256(b"abc"), "ba7816bf8f01cfea414140de5dae2223b00361a396177a9cb410ff61f20015ad");
    assert_eq!(sha256(b""), "e3b0c44298fc1c149afbf4c8996fb92427ae41e4649b934ca495991b7852b855");
}

#[test]
fn committed_fixtures_must_match_declarations_byte_for_byte() {
    let files = vec![fixture("fixture/a.rs", b"fn a() {}"), fixture("fixture/src/b.json", b"{}")];
    assert!(validate_fixture_bytes(
        "case",
        &files,
        vec![listing(&["fixture", "src", "b.json"], b"{}"), listing(&["fixture", "a.rs"], b"fn a() {}")]
    )
    .is_ok());

    let mut upper = files.clone();
    upper[0].sha256 = upper[0].sha256.to_ascii_uppercase();
    assert!(validate_fixture_bytes(
        "case",
        &upper,
        vec![listing(&["fixture", "a.rs"], b"fn a() {}"), listing(&["fixture", "src", "b.json"], b"{}")]
    )
    .is_ok());

    let error = validate_fixture_bytes("case", &files, vec![listing(&["fixture", "a.rs"], b"fn a() {}")]).unwrap_err();
    assert_eq!(error.message(), "case case fixture declaration count does not match committed files");

    let error = validate_fixture_bytes(
        "case",
        &files,
        vec![listing(&["fixture", "a.rs"], b"fn a() {}"), listing(&["fixture", "c.json"], b"{}")],
    )
    .unwrap_err();
    assert_eq!(error.message(), "undeclared fixture file: fixture/c.json");

    let error = validate_fixture_bytes(
        "case",
        &files,
        vec![listing(&["fixture", "a.rs"], b"fn b() {}"), listing(&["fixture", "src", "b.json"], b"{}")],
    )
    .unwrap_err();
    assert_eq!(error.message(), "fixture SHA-256 mismatch for fixture/a.rs");

    let unreadable = FixtureListing { relative: names(&["fixture", "a.rs"]), bytes: Err("fixture/a.rs: denied".into()) };
    let error =
        validate_fixture_bytes("case", &files, vec![unreadable, listing(&["fixture", "src", "b.json"], b"{}")]).unwrap_err();
    assert_eq!(error, CorpusError::invalid("fixture/a.rs: denied".into()));
}

struct FakeFetcher {
    upstream: Vec<(String, Vec<u8>)>,
    calls: RefCell<Vec<String>>,
}

impl FakeFetcher {
    fn new(upstream: &[(&str, &[u8])]) -> Self {
        FakeFetcher {
            upstream: upstream.iter().map(|(path, bytes)| ((*path).to_owned(), bytes.to_vec())).collect(),
            calls: RefCell::new(Vec::new()),
        }
    }
}

impl SourceFetcher for FakeFetcher {
    fn fetch(&self, repository: &str, revision: &str, path: &str) -> Result<Vec<u8>, SourceError> {
        self.calls.borrow_mut().push(format!("{repository}@{revision}:{path}"));
        self.upstream
            .iter()
            .find(|(candidate, _)| candidate == path)
            .map(|(_, bytes)| bytes.clone())
            .ok_or_else(|| SourceError::Git(format!("git show failed: {path} missing")))
    }
}

fn case_with(files: Vec<FixtureFileV1>) -> BenchmarkCase {
    let mut case = case("cargo/drift/case-a", "cargo", "drift");
    case.specimen.files = files;
    case
}

#[test]
fn refresh_rejects_symbolic_revision_before_fetching() {
    let cases = vec![case_with(vec![fixture("fixture/a.rs", b"old")])];
    let fetcher = FakeFetcher::new(&[("fixture/a.rs", b"new")]);
    let error = stage_refreshes(&cases, "main", &fetcher).map(|_| ()).unwrap_err();
    assert_eq!(error, SourceError::InvalidRevision("revision must be exactly 40 hexadecimal characters".to_owned()));
    assert!(fetcher.calls.borrow().is_empty());
}

#[test]
fn refresh_stages_every_file_at_the_lowercased_revision() {
    let cases = vec![case_with(vec![fixture("fixture/a.rs", b"old")])];
    let fetcher = FakeFetcher::new(&[("fixture/a.rs", b"new")]);
    let revision = "ABCDEF0123456789ABCDEF0123456789ABCDEF01";
    let staged = stage_refreshes(&cases, revision, &fetcher).map_err(|error| error.message()).unwrap();
    assert_eq!(staged.len(), 1);
    assert_eq!(staged[0].specimen.upstream.revision, revision.to_ascii_lowercase());
    assert_eq!(staged[0].specimen.id, "cargo/drift/case-a");
    assert_eq!(staged[0].specimen.files[0].sha256, sha256(b"new"));
    assert_eq!(staged[0].files, vec![("fixture/a.rs".to_owned(), b"new".to_vec())]);
    assert_eq!(*fetcher.calls.borrow(), vec![format!("example/cargo@{revision}:fixture/a.rs")]);

    let missing = FakeFetcher::new(&[]);
    let error = stage_refreshes(&cases, revision, &missing).map(|_| ()).unwrap_err();
    assert_eq!(error, SourceError::Git("git show failed: fixture/a.rs missing".to_owned()));
}

#[test]
fn verify_rejects_remote_mismatch_and_unreadable_fixtures() {
    let cases = vec![case_with(vec![fixture("fixture/a.rs", b"same")])];
    let same = FakeFetcher::new(&[("fixture/a.rs", b"same")]);
    assert_eq!(verify_sources(&cases, &vec![vec![Ok(b"same".to_vec())]], &same), Ok(()));

    let changed = FakeFetcher::new(&[("fixture/a.rs", b"changed")]);
    let error = verify_sources(&cases, &vec![vec![Ok(b"same".to_vec())]], &changed).unwrap_err();
    assert_eq!(
        error.message(),
        "source mismatch: cargo/drift/case-a:fixture/a.rs differs from example/cargo@0123456789abcdef0123456789abcdef01234567:fixture/a.rs"
    );

    let error = verify_sources(&cases, &vec![vec![Ok(b"edited".to_vec())]], &same).unwrap_err();
    assert_eq!(
        error,
        SourceError::RemoteMismatch("cargo/drift/case-a committed fixture digest does not match specimen".to_owned())
    );

    let error = verify_sources(&cases, &vec![vec![Err("fixture/a.rs: denied".to_owned())]], &same).unwrap_err();
    assert_eq!(error, SourceError::Io("fixture/a.rs: denied".to_owned()));
}

#[test]
fn refresh_of_a_case_without_files_fetches_nothing() {
    let case = case_with(Vec::new());
    let fetcher = FakeFetcher::new(&[]);
    let revision = "0123456789ABCDEF0123456789ABCDEF01234567";
    let staged = stage_refresh(&case, revision, &fetcher).map_err(|error| error.message()).unwrap();
    assert!(staged.files.is_empty());
    assert_eq!(staged.specimen.upstream.revision, revision.to_ascii_lowercase());
    assert_eq!(staged.specimen.id, "cargo/drift/case-a");
    assert!(fetcher.calls.borrow().is_empty());
}

#[test]
fn verify_checks_the_committed_digest_before_fetching() {
    let cases = vec![case_with(vec![fixture("fixture/a.rs", b"same")])];
    let fetcher = FakeFetcher::new(&[("fixture/a.rs", b"same")]);
    let error = verify_sources(&cases, &vec![vec![Ok(b"edited".to_vec())]], &fetcher).unwrap_err();
    assert!(matches!(error, SourceError::RemoteMismatch(_)));
    assert!(fetcher.calls.borrow().is_empty());

    assert_eq!(verify_sources(&cases, &vec![vec![Ok(b"same".to_vec())]], &fetcher), Ok(()));
    assert_eq!(
        *fetcher.calls.borrow(),
        vec!["example/cargo@0123456789abcdef0123456789abcdef01234567:fixture/a.rs".to_owned()]
    );
}

#[test]
fn verify_of_cases_without_files_fetches_nothing() {
    let cases = vec![case_with(Vec::new()), case_with(Vec::new())];
    let fetcher = FakeFetcher::new(&[]);
    assert_eq!(verify_sources(&cases, &vec![Vec::new(), Vec::new()], &fetcher), Ok(()));
    assert!(fetcher.calls.borrow().is_empty());
}

#[test]
fn fetch_requests_name_each_upstream_file_at_the_revision() {
    let mut case = case_with(vec![fixture("fixture/a.rs", b"a"), fixture("fixture/b.rs", b"b")]);
    case.specimen.files[1].upstream_path = "src/b.rs".to_owned();
    let requests = fetch_requests(&case, "feedface");
    assert_eq!(requests.len(), 2);
    assert!(requests.iter().all(|request| request.repository == "example/cargo" && request.revision == "feedface"));
    assert_eq!(requests[0].path, "fixture/a.rs");
    assert_eq!(requests[1].path, "src/b.rs");
}

#[test]
fn a_case_runs_as_an_analysis_of_its_fixture() {
    let case = case_with(Vec::new());
    let args = analyze_arguments(&case);
    assert_eq!(
        args,
        vec![
            "analyze".to_owned(),
            case.fixture_dir.clone(),
            "--source-repository".to_owned(),
            "example/cargo".to_owned(),
            "--revision".to_owned(),
            "0123456789abcdef0123456789abcdef01234567".to_owned(),
            "--format".to_owned(),
            "graph-json".to_owned(),
        ]
    );
    match parse_cli(args) {
        Ok(CliCommand::Analyze { path, repository, revision }) => {
            assert_eq!(path, case.fixture_dir);
            assert_eq!(repository, "example/cargo");
            assert_eq!(revision, "0123456789abcdef0123456789abcdef01234567");
        },
        _ => panic!("expected an analysis command"),
    }
}
