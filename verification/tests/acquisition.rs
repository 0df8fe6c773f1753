use chirograph::acquisition::{
    json_file_facts, strip_json_comments, syntax_facts, AcquiredSpan, AcquisitionContext, SyntaxFact,
};
use chirograph::model::Revision;
use chirograph::registry::{
    extension_of, is_skipped_directory, normalized_path, push_diagnostic, AcquisitionDiagnostic, AcquisitionError,
    AcquisitionRuntime, AdapterCapability, AdapterChoice, AdapterFamily, DiagnosticKind, TreeFile,
};

fn capability(id: &str, extension: &str) -> AdapterCapability {
    AdapterCapability {
        adapter: id.to_owned(),
        family: AdapterFamily::StructuredSemantic,
        extensions: vec![extension.to_owned()],
    }
}

#[test]
fn duplicate_adapter_identity_is_rejected_at_registration() {
    let error = AcquisitionRuntime::with_adapters(vec![capability("duplicate", "one"), capability("duplicate", "two")])
        .expect_err("duplicate adapter identity must be rejected");

    assert!(matches!(
        error,
        AcquisitionError::DuplicateAdapterId { ref adapter } if adapter == "duplicate"
    ));
}

#[test]
fn default_runtime_reports_tree_sitter_and_structured_capabilities() {
    let capabilities = AcquisitionRuntime::default().capabilities();

    assert!(capabilities.iter().any(|capability| {
        capability.adapter == "rust"
            && capability.family == AdapterFamily::TreeSitter
            && capability.extensions == ["rs"]
    }));
    assert!(capabilities.iter().any(|capability| {
        capability.adapter == "json"
            && capability.family == AdapterFamily::StructuredSemantic
            && capability.extensions == ["json"]
    }));
}

#[test]
fn capabilities_are_listed_by_identity() {
    let runtime =
        AcquisitionRuntime::with_adapters(vec![capability("zeta", "z"), capability("alpha", "a")]).unwrap();
    let ids = runtime.capabilities().into_iter().map(|c| c.adapter).collect::<Vec<_>>();
    assert_eq!(ids, vec!["alpha".to_owned(), "zeta".to_owned()]);
}

#[test]
fn ambiguous_adapter_selection_names_every_candidate() {
    let runtime = AcquisitionRuntime::with_adapters(vec![capability("second", "txt"), capability("first", "txt")])
        .unwrap();
    match runtime.choose_adapter(&Some("txt".to_owned())) {
        AdapterChoice::Ambiguous(names) => assert_eq!(names, vec!["first".to_owned(), "second".to_owned()]),
        other => panic!("expected an ambiguous choice, got {other:?}"),
    }
    assert!(matches!(runtime.choose_adapter(&Some("md".to_owned())), AdapterChoice::Unsupported));
    assert!(matches!(runtime.choose_adapter(&None), AdapterChoice::Unsupported));
}

#[test]
fn extensions_follow_the_path_rules() {
    assert_eq!(extension_of("lib.rs"), Some("rs".to_owned()));
    assert_eq!(extension_of("archive.tar.gz"), Some("gz".to_owned()));
    assert_eq!(extension_of(".gitignore"), None);
    assert_eq!(extension_of("Makefile"), None);
    assert_eq!(extension_of(".."), None);
    assert!(is_skipped_directory("target"));
    assert!(!is_skipped_directory("src"));
    assert_eq!(normalized_path(&["src".to_owned(), "lib.rs".to_owned()]), "src/lib.rs");
}

#[test]
fn comments_become_spaces_and_strings_stay() {
    let input = b"{\"a\": \"//x\", // note\n /* b\n */ \"c\": 1}";
    let output = strip_json_comments(input);
    assert_eq!(output.len(), input.len());
    assert_eq!(
        String::from_utf8(output).unwrap(),
        "{\"a\": \"//x\",        \n     \n    \"c\": 1}"
    );
}

#[test]
fn stripping_comments_twice_strips_as_much_as_once() {
    for input in [
        &b"{\"a\": \"//x\", // note\n /* b\n */ \"c\": 1}"[..],
        &b"/*a*//*b*/ {\"k\": \"\\\"/*\"} // end"[..],
        &b"/// ///* x */ /"[..],
    ] {
        let once = strip_json_comments(input);
        assert_eq!(strip_json_comments(&once), once);
    }
}

#[test]
fn diagnostics_are_capped_with_one_notice() {
    let mut diagnostics = Vec::new();
    for index in 0..70 {
        push_diagnostic(
            &mut diagnostics,
            AcquisitionDiagnostic {
                kind: DiagnosticKind::UnsupportedSource,
                path: format!("f{index}.txt"),
                message: "unsupported".to_owned(),
            },
        );
    }
    assert_eq!(diagnostics.len(), 65);
    assert_eq!(diagnostics[64].kind, DiagnosticKind::DiagnosticsTruncated);
    assert_eq!(diagnostics[64].message, "diagnostics truncated after 64 entries");
    assert_eq!(diagnostics[63].path, "f63.txt");
}

fn tree(paths: &[&[&str]]) -> Vec<TreeFile> {
    paths
        .iter()
        .map(|path| TreeFile { components: path.iter().map(|part| (*part).to_owned()).collect() })
        .collect()
}

#[test]
fn acquisition_plan_reads_files_in_path_order_and_stops_at_ambiguity() {
    let runtime =
        AcquisitionRuntime::with_adapters(vec![capability("json", "json"), capability("rust", "rs")]).unwrap();
    let files: &[&[&str]] = &[&["src", "lib.rs"], &["README.md"], &["a.json"]];
    let plan = runtime.plan_acquisition(tree(files));
    let paths = plan.steps.iter().map(|step| step.path.clone()).collect::<Vec<_>>();
    assert_eq!(paths, vec!["a.json".to_owned(), "src/lib.rs".to_owned()]);
    assert_eq!(plan.steps[1].relative_path, vec!["src".to_owned(), "lib.rs".to_owned()]);
    assert_eq!(plan.diagnostics.len(), 1);
    assert_eq!(plan.diagnostics[0].kind, DiagnosticKind::UnsupportedSource);
    assert_eq!(plan.diagnostics[0].path, "README.md");
    assert_eq!(plan.diagnostics[0].message, "no registered acquisition adapter");
    assert!(plan.ambiguous.is_none());

    let reversed: &[&[&str]] = &[&["a.json"], &["README.md"], &["src", "lib.rs"]];
    let again = runtime.plan_acquisition(tree(reversed));
    let again_paths = again.steps.iter().map(|step| step.path.clone()).collect::<Vec<_>>();
    assert_eq!(again_paths, paths);

    let twins = AcquisitionRuntime::with_adapters(vec![capability("two", "txt"), capability("one", "txt")]).unwrap();
    let files: &[&[&str]] = &[&["c.rs"], &["b.txt"], &["a.md"]];
    let stopped = twins.plan_acquisition(tree(files));
    assert!(stopped.steps.is_empty());
    assert_eq!(stopped.diagnostics.len(), 1);
    assert_eq!(stopped.diagnostics[0].path, "a.md");
    assert_eq!(stopped.ambiguous, Some(("b.txt".to_owned(), vec!["one".to_owned(), "two".to_owned()])));
}

fn context() -> AcquisitionContext {
    AcquisitionContext::new("github:owner/repo".to_owned(), Revision::Exact("0123456789abcdef0123456789abcdef01234567".to_owned()))
}

#[test]
fn syntax_facts_are_located_by_byte_range_and_malformed_files_fail_closed() {
    let span = AcquiredSpan { start_byte: 4, end_byte: 17, start_row: 0, start_column: 4, end_row: 0, end_column: 17 };
    let extracted = vec![SyntaxFact { kind: "function".to_owned(), text: "fn main() {}".to_owned(), span }];
    let facts = syntax_facts("rust", "Rust", "src/main.rs", &context(), &extracted, 0).expect("facts");
    assert_eq!(facts.len(), 1);
    assert_eq!(facts[0].adapter, "rust");
    assert_eq!(facts[0].kind, "function");
    assert_eq!(facts[0].path, "src/main.rs");
    assert_eq!(facts[0].locator, "src/main.rs#bytes=4-17");
    assert_eq!(facts[0].source, "github:owner/repo");
    assert_eq!(facts[0].span, Some(span));

    let error = syntax_facts("go", "Go", "main.go", &context(), &extracted, 2).expect_err("malformed");
    assert_eq!(
        error,
        AcquisitionError::MalformedSyntax { adapter: "Go".to_owned(), path: "main.go".to_owned(), diagnostic_count: 2 }
    );
    assert_eq!(error.message(), "malformed Go source main.go: 2 parse diagnostics");
}

#[test]
fn json_files_yield_one_fact_per_node_in_document_order() {
    let facts = json_file_facts("config.json", &context(), b"// settings\n{\"a\": [1, true]}").expect("facts");
    let summary = facts
        .iter()
        .map(|fact| (fact.kind.as_str(), fact.locator.as_str(), fact.text.as_str()))
        .collect::<Vec<_>>();
    assert_eq!(
        summary,
        vec![
            ("object", "#", "1 properties"),
            ("array", "#/a", "2 items"),
            ("number", "#/a/0", "1"),
            ("boolean", "#/a/1", "true"),
        ]
    );
    assert!(facts.iter().all(|fact| fact.adapter == "json" && fact.path == "config.json" && fact.span.is_none()));

    let error = json_file_facts("broken.json", &context(), b"{\"a\":").expect_err("invalid");
    assert!(error.message().starts_with("invalid JSON source broken.json: EOF while parsing"));
}
