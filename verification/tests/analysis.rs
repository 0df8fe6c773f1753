use std::collections::{BTreeSet, HashSet};

use chirograph::analysis::alignment::align_candidates;
use chirograph::analysis::analyze::{analyze_tree, SourceInput};
use chirograph::analysis::rust_facts::{ByteSpan, RustExtraction, RustFact, RustFactKind};
use chirograph::analysis::rust_projection::extract_rust_candidates;
use chirograph::analysis::assembly::{assemble_contract_graph, AnalysisAssembly};
use chirograph::analysis::candidate::{
    CandidateEvidence, CandidateMechanism, RepresentationCandidate, SemanticPath,
};
use chirograph::analysis::context::AnalysisSourceContext;
use chirograph::analysis::discovery::{
    discover_sources, is_explicit_json_schema, relative_locator, SourceFileKind,
};
use chirograph::analysis::json_schema::{extract_json_schema_candidates, schema_document_candidates};
use chirograph::json::{JsonMember, JsonValue};
use chirograph::json::escape_pointer_segment;
use chirograph::model::{AlignmentState, ContractFacet, RepresentationKind, Revision};

const REVISION: &str = "0123456789abcdef0123456789abcdef01234567";

fn texts(values: &[&str]) -> Vec<String> {
    values.iter().map(|value| (*value).to_owned()).collect()
}

fn path(segments: &[&str]) -> SemanticPath {
    SemanticPath::new(texts(segments)).unwrap()
}

fn context() -> AnalysisSourceContext {
    AnalysisSourceContext::github("acme/fixture-project", Revision::Exact(REVISION.into())).unwrap()
}

fn fixture_evidence(locator: &str, fact: &str) -> CandidateEvidence {
    CandidateEvidence {
        source: "github:acme/fixture-project".into(),
        revision: Revision::Exact(REVISION.into()),
        locator: locator.into(),
        fact: fact.into(),
    }
}

fn mechanisms_for(kind: RepresentationKind, with_reference: bool) -> Vec<CandidateMechanism> {
    match kind {
        RepresentationKind::SourceCode => vec![
            CandidateMechanism::RustSerializedField,
            CandidateMechanism::RustTypeReference,
            CandidateMechanism::RustClosedValueSet,
        ],
        RepresentationKind::Schema if with_reference => vec![
            CandidateMechanism::JsonSchemaProperty,
            CandidateMechanism::JsonSchemaReference,
            CandidateMechanism::JsonSchemaClosedValueSet,
        ],
        RepresentationKind::Schema => vec![
            CandidateMechanism::JsonSchemaProperty,
            CandidateMechanism::JsonSchemaClosedValueSet,
        ],
        _ => panic!("test candidate kind must be source or schema"),
    }
}

fn aligned_candidate(
    kind: RepresentationKind,
    identity: &str,
    segments: &[&str],
    values: &[&str],
) -> RepresentationCandidate {
    let context = context();
    RepresentationCandidate::new(
        kind,
        identity.into(),
        format!("{identity}.fixture"),
        vec![ContractFacet::Structure],
        path(segments),
        Some(texts(values)),
        mechanisms_for(kind, false),
        vec![CandidateEvidence {
            source: context.source,
            revision: context.revision,
            locator: format!("{identity}.fixture#evidence"),
            fact: format!("serialized path {}", segments.join(".")),
        }],
    )
    .unwrap()
}

fn assembled_candidate(
    kind: RepresentationKind,
    identity: &str,
    locator: &str,
    segments: &[&str],
    values: &[&str],
) -> RepresentationCandidate {
    let context = context();
    RepresentationCandidate::new(
        kind,
        identity.into(),
        locator.into(),
        vec![ContractFacet::Structure],
        path(segments),
        Some(texts(values)),
        mechanisms_for(kind, true),
        vec![CandidateEvidence {
            source: context.source,
            revision: context.revision,
            locator: format!("{locator}#evidence"),
            fact: format!("closed values for {}", segments.join(".")),
        }],
    )
    .unwrap()
}

fn state_for(
    assembly: &AnalysisAssembly,
    representation: &str,
    contract: &str,
    facet: ContractFacet,
) -> Option<AlignmentState> {
    assembly
        .alignments
        .claims
        .iter()
        .find(|claim| {
            claim.representation == representation && claim.contract == contract && claim.facet == facet
        })
        .map(|claim| claim.state)
}

// ---- candidates ----

#[test]
fn semantic_paths_require_nonempty_consumer_segments() {
    assert!(SemanticPath::new(texts(&["profile", "debug-info"])).is_ok());
    assert!(SemanticPath::new(texts(&["profile", ""])).is_err());
    assert!(SemanticPath::new(texts(&[" profile "])).is_err());
}

#[test]
fn candidate_preserves_identity_facets_revision_and_stable_evidence() {
    let candidate = RepresentationCandidate::new(
        RepresentationKind::SourceCode,
        "fixture::DebugInfo".into(),
        "src/lib.rs".into(),
        vec![ContractFacet::Structure],
        path(&["profile", "debug-info"]),
        Some(texts(&["full", "none"])),
        vec![CandidateMechanism::RustSerializedField, CandidateMechanism::RustClosedValueSet],
        vec![
            fixture_evidence("src/lib.rs#L20", "enum values"),
            fixture_evidence("src/lib.rs#L10", "field path"),
        ],
    )
    .unwrap();

    assert_eq!(candidate.qualified_local_identity, "fixture::DebugInfo");
    assert_eq!(candidate.facets, vec![ContractFacet::Structure]);
    assert_eq!(candidate.evidence[0].locator, "src/lib.rs#L10");
    assert_eq!(candidate.evidence[1].locator, "src/lib.rs#L20");
    assert!(matches!(candidate.evidence[0].revision, Revision::Exact(_)));
}

#[test]
fn closed_values_require_matching_mechanism_evidence() {
    let result = RepresentationCandidate::new(
        RepresentationKind::Schema,
        "fixture.schema.DebugInfo".into(),
        "schema.json".into(),
        vec![ContractFacet::Structure],
        path(&["profile", "debug-info"]),
        Some(texts(&["Full", "None"])),
        vec![CandidateMechanism::JsonSchemaProperty],
        vec![fixture_evidence("schema.json#/$defs/DebugInfo", "closed enum")],
    );
    assert!(result.is_err());
}

#[test]
fn candidate_mechanisms_are_set_like_and_deterministic() {
    let mechanisms = BTreeSet::from([
        CandidateMechanism::JsonSchemaClosedValueSet,
        CandidateMechanism::JsonSchemaProperty,
    ]);
    assert_eq!(mechanisms.len(), 2);
    let hash = mechanisms.iter().collect::<HashSet<_>>();
    assert_eq!(hash.len(), 2);
}

#[test]
fn candidate_mechanisms_collapse_repeats_in_rank_order() {
    let candidate = RepresentationCandidate::new(
        RepresentationKind::SourceCode,
        "fixture::DebugInfo".into(),
        "src/lib.rs".into(),
        vec![ContractFacet::Structure, ContractFacet::Structure],
        path(&["profile", "debug-info"]),
        Some(texts(&["none", "full", "none"])),
        vec![
            CandidateMechanism::RustClosedValueSet,
            CandidateMechanism::RustSerializedField,
            CandidateMechanism::RustClosedValueSet,
        ],
        vec![fixture_evidence("src/lib.rs#L1", "field")],
    )
    .unwrap();
    assert_eq!(
        candidate.mechanisms,
        vec![CandidateMechanism::RustSerializedField, CandidateMechanism::RustClosedValueSet]
    );
    assert_eq!(candidate.facets, vec![ContractFacet::Structure]);
    assert_eq!(candidate.closed_values, Some(texts(&["full", "none"])));
}

#[test]
fn semantic_path_joins_segments_with_dots() {
    let p = path(&["profile", "debug-info"]);
    assert_eq!(p.dotted(), "profile.debug-info");
    assert_eq!(p.segments(), texts(&["profile", "debug-info"]).as_slice());
    assert!(SemanticPath::new(Vec::new()).is_err());
}

// ---- context and discovery ----

#[test]
fn derives_source_identity_and_namespace_from_explicit_repository_context() {
    let revision = Revision::Exact(REVISION.into());
    let context = AnalysisSourceContext::github("acme/fixture-project", revision.clone()).unwrap();
    assert_eq!(context.repository, "acme/fixture-project");
    assert_eq!(context.source.as_str(), "github:acme/fixture-project");
    assert_eq!(context.namespace, "fixture-project");
    assert_eq!(context.revision, revision);

    assert!(AnalysisSourceContext::github("missing-owner", Revision::Unknown).is_err());
    assert!(AnalysisSourceContext::github("acme/", Revision::Unknown).is_err());
}

#[test]
fn discovers_supported_files_in_stable_root_relative_order() {
    // The tree holds z/nested/b.json, a.rs and ignore.txt.
    let listing = vec![texts(&["z", "nested", "b.json"]), texts(&["a.rs"]), texts(&["ignore.txt"])];
    let discovered = discover_sources("root", Some(listing)).unwrap();
    assert_eq!(
        discovered
            .iter()
            .map(|item| (item.relative_path.join("/"), item.kind))
            .collect::<Vec<_>>(),
        vec![
            ("a.rs".to_owned(), SourceFileKind::Rust),
            ("z/nested/b.json".to_owned(), SourceFileKind::Json),
        ]
    );
}

#[test]
fn does_not_follow_symlink_escape() {
    // A root whose only entry is a symbolic link lists no regular file.
    assert!(discover_sources("root", Some(Vec::new())).unwrap().is_empty());
}

#[test]
fn discovery_refuses_a_root_that_is_not_a_directory() {
    let error = discover_sources("missing", None).unwrap_err();
    assert_eq!(error.message(), "invalid source root: missing");
}

#[test]
fn discovery_orders_by_components_not_by_text() {
    let listing = vec![texts(&["a-c.rs"]), texts(&["a", "b.rs"]), texts(&[".rs"]), texts(&["x.json"])];
    let discovered = discover_sources("root", Some(listing)).unwrap();
    let paths = discovered.iter().map(|item| item.relative_path.join("/")).collect::<Vec<_>>();
    assert_eq!(paths, vec!["a/b.rs".to_owned(), "a-c.rs".to_owned(), "x.json".to_owned()]);
}

#[test]
fn locators_use_forward_slashes() {
    assert_eq!(relative_locator(&texts(&["src", "lib.rs"])), "src/lib.rs");
    assert_eq!(relative_locator(&texts(&["a\\b.rs"])), "a/b.rs");
}

#[test]
fn json_files_are_schemas_by_name_or_by_schema_member() {
    let empty = b"{}";
    assert!(is_explicit_json_schema("schema.json", empty));
    assert!(is_explicit_json_schema("config/cargo.schema.json", empty));
    assert!(!is_explicit_json_schema("config/other.json", empty));
    assert!(!is_explicit_json_schema("myschema.json", empty));
    let declared = br#"{"$schema": "https://json-schema.org/draft/2020-12/schema"}"#;
    assert!(is_explicit_json_schema("config/other.json", declared));
    assert!(!is_explicit_json_schema("config/other.json", b"not JSON"));
    assert!(is_explicit_json_schema("schema.json", b"not JSON"));
}

// ---- alignment ----

#[test]
fn unique_exact_path_pair_is_confirmed_even_when_values_agree() {
    let rust = aligned_candidate(
        RepresentationKind::SourceCode,
        "fixture::DebugInfo",
        &["profile", "debug-info"],
        &["none", "full"],
    );
    let schema = aligned_candidate(
        RepresentationKind::Schema,
        "#/$defs/DebugInfo",
        &["profile", "debug-info"],
        &["none", "full"],
    );

    let forward = align_candidates(&[rust.clone(), schema.clone()]).unwrap();
    let reverse = align_candidates(&[schema, rust]).unwrap();
    assert_eq!(forward, reverse);
    assert_eq!(forward.len(), 1);
    assert_eq!(forward[0].state, AlignmentState::Confirmed);
    assert_eq!(forward[0].semantic_path.dotted(), "profile.debug-info");
    assert_eq!(forward[0].candidates.len(), 2);
    assert!(!forward[0].evidence.is_empty());
}

#[test]
fn one_to_many_and_one_sided_paths_stay_unresolved() {
    let source_a = aligned_candidate(
        RepresentationKind::SourceCode,
        "fixture::A",
        &["profile", "debug-info"],
        &["none", "full"],
    );
    let source_b = aligned_candidate(
        RepresentationKind::SourceCode,
        "fixture::B",
        &["profile", "debug-info"],
        &["none", "full"],
    );
    let schema = aligned_candidate(
        RepresentationKind::Schema,
        "#/$defs/DebugInfo",
        &["profile", "debug-info"],
        &["none", "full"],
    );
    let schema_only = aligned_candidate(
        RepresentationKind::Schema,
        "#/$defs/Other",
        &["profile", "other"],
        &["one", "two"],
    );

    let decisions = align_candidates(&[source_a, source_b, schema, schema_only]).unwrap();
    assert_eq!(decisions.len(), 2);
    assert!(decisions.iter().all(|decision| decision.state == AlignmentState::Unresolved));
}

// ---- assembly ----

#[test]
fn unique_differing_pair_promotes_one_contract_and_confirmed_alignments() {
    let context = context();
    let rust = assembled_candidate(
        RepresentationKind::SourceCode,
        "fixture::DebugInfo",
        "src/lib.rs",
        &["profile", "debug-info"],
        &["none", "full"],
    );
    let schema = assembled_candidate(
        RepresentationKind::Schema,
        "#/$defs/DebugInfo",
        "schema.json",
        &["profile", "debug-info"],
        &["None", "Full"],
    );

    let assembly = assemble_contract_graph(&context, &[schema, rust]).unwrap();

    assert_eq!(assembly.graph.contracts.len(), 1);
    assert_eq!(assembly.graph.representations.len(), 2);
    assert_eq!(assembly.decisions.len(), 1);
    assert_eq!(assembly.decisions[0].state, AlignmentState::Confirmed);
    let contract = "fixture-project.profile.debug-info";
    assert_eq!(assembly.graph.contracts[0].id, contract);

    for representation in [
        "fixture-project.profile.debug-info.implementation",
        "fixture-project.profile.debug-info.schema",
    ] {
        assert_eq!(
            state_for(&assembly, representation, contract, ContractFacet::Structure),
            Some(AlignmentState::Confirmed)
        );
    }
}

#[test]
fn ambiguous_or_unrelated_candidates_remain_unpromoted() {
    let context = context();
    let source_a = assembled_candidate(
        RepresentationKind::SourceCode,
        "fixture::DebugInfoA",
        "a.rs",
        &["profile", "debug-info"],
        &["none", "full"],
    );
    let source_b = assembled_candidate(
        RepresentationKind::SourceCode,
        "fixture::DebugInfoB",
        "b.rs",
        &["profile", "debug-info"],
        &["none", "full"],
    );
    let schema = assembled_candidate(
        RepresentationKind::Schema,
        "#/$defs/DebugInfo",
        "schema.json",
        &["profile", "debug-info"],
        &["None", "Full"],
    );
    let unrelated = assembled_candidate(
        RepresentationKind::Schema,
        "#/$defs/Other",
        "other.json",
        &["profile", "other"],
        &["One", "Two"],
    );

    let assembly = assemble_contract_graph(&context, &[source_a, source_b, schema, unrelated]).unwrap();
    assert!(assembly.graph.contracts.is_empty());
    assert!(assembly.graph.representations.is_empty());
    assert!(assembly.graph.observations.is_empty());
    assert!(assembly.alignments.claims.is_empty());
    assert_eq!(assembly.decisions.len(), 2);
    assert!(assembly.decisions.iter().all(|decision| decision.state == AlignmentState::Unresolved));
}

#[test]
fn equal_closed_values_confirm_identity_without_promoting_drift() {
    let context = context();
    let rust = assembled_candidate(
        RepresentationKind::SourceCode,
        "fixture::DebugInfo",
        "src/lib.rs",
        &["profile", "debug-info"],
        &["none", "full"],
    );
    let schema = assembled_candidate(
        RepresentationKind::Schema,
        "#/$defs/DebugInfo",
        "schema.json",
        &["profile", "debug-info"],
        &["none", "full"],
    );

    let assembly = assemble_contract_graph(&context, &[rust, schema]).unwrap();
    assert!(assembly.graph.contracts.is_empty());
    assert!(assembly.graph.representations.is_empty());
    assert!(assembly.graph.observations.is_empty());
    assert!(assembly.alignments.claims.is_empty());
    assert_eq!(assembly.decisions.len(), 1);
    assert_eq!(assembly.decisions[0].state, AlignmentState::Confirmed);
}

#[test]
fn assembly_sorts_evidence_given_in_any_order() {
    let context = context();
    let mut rust = assembled_candidate(
        RepresentationKind::SourceCode,
        "fixture::DebugInfo",
        "src/lib.rs",
        &["profile", "debug-info"],
        &["none", "full"],
    );
    let schema = assembled_candidate(
        RepresentationKind::Schema,
        "#/$defs/DebugInfo",
        "schema.json",
        &["profile", "debug-info"],
        &["None", "Full"],
    );
    let first = rust.evidence[0].clone();
    let mut second = first.clone();
    second.fact = "a second fact".into();
    rust.evidence = vec![first.clone(), second.clone(), first];
    let assembly = assemble_contract_graph(&context, &[rust, schema]).unwrap();
    assert_eq!(assembly.graph.observations.len(), 3);
    let locators = assembly.graph.observations.iter().map(|o| o.locator.clone()).collect::<Vec<_>>();
    assert_eq!(locators, vec!["schema.json#evidence", "src/lib.rs#evidence", "src/lib.rs#evidence"]);
    assert_eq!(assembly.graph.observations[1].fact, "a second fact");
    let claim = assembly
        .alignments
        .claims
        .iter()
        .find(|claim| claim.representation.ends_with(".implementation"))
        .unwrap();
    assert_eq!(claim.evidence.len(), 2);
}

#[test]
fn assembly_is_stable_under_candidate_input_order() {
    let context = context();
    let rust = assembled_candidate(
        RepresentationKind::SourceCode,
        "fixture::DebugInfo",
        "src/lib.rs",
        &["profile", "debug-info"],
        &["none", "full"],
    );
    let schema = assembled_candidate(
        RepresentationKind::Schema,
        "#/$defs/DebugInfo",
        "schema.json",
        &["profile", "debug-info"],
        &["None", "Full"],
    );

    let forward = assemble_contract_graph(&context, &[rust.clone(), schema.clone()]).unwrap();
    let reverse = assemble_contract_graph(&context, &[schema, rust]).unwrap();
    assert_eq!(forward, reverse);
}

#[test]
fn assembly_names_observations_in_padded_order() {
    let context = context();
    let rust = assembled_candidate(
        RepresentationKind::SourceCode,
        "fixture::DebugInfo",
        "src/lib.rs",
        &["profile", "debug-info"],
        &["none", "full"],
    );
    let schema = assembled_candidate(
        RepresentationKind::Schema,
        "#/$defs/DebugInfo",
        "schema.json",
        &["profile", "debug-info"],
        &["None", "Full"],
    );
    let assembly = assemble_contract_graph(&context, &[rust, schema]).unwrap();
    let ids = assembly.graph.observations.iter().map(|o| o.id.clone()).collect::<Vec<_>>();
    assert_eq!(
        ids,
        vec![
            "fixture-project.observation.0001".to_owned(),
            "fixture-project.observation.0002".to_owned(),
        ]
    );
    assert_eq!(assembly.graph.sources[0].locator, "github:acme/fixture-project");
}

#[test]
fn assembly_refuses_evidence_from_another_source() {
    let context = context();
    let foreign = RepresentationCandidate::new(
        RepresentationKind::SourceCode,
        "fixture::DebugInfo".into(),
        "src/lib.rs".into(),
        vec![ContractFacet::Structure],
        path(&["profile", "debug-info"]),
        Some(texts(&["none"])),
        mechanisms_for(RepresentationKind::SourceCode, false),
        vec![CandidateEvidence {
            source: "github:other/project".into(),
            revision: Revision::Exact(REVISION.into()),
            locator: "src/lib.rs#evidence".into(),
            fact: "field".into(),
        }],
    )
    .unwrap();
    assert!(assemble_contract_graph(&context, &[foreign]).is_err());
}

// ---- JSON Schema ----

#[test]
fn extracts_explicit_property_path_and_closed_value_set() {
    let schema = br#"{
        "type": "object",
        "properties": {
            "profile": {
                "type": "object",
                "properties": {
                    "debug-info": {
                        "type": "string",
                        "enum": ["none", "line-tables-only", "full"]
                    }
                }
            }
        }
    }"#;

    let candidates = extract_json_schema_candidates(&context(), "schema.json", schema).unwrap();
    assert_eq!(candidates.len(), 1);
    let candidate = &candidates[0];
    assert_eq!(candidate.kind, RepresentationKind::Schema);
    assert_eq!(candidate.semantic_path.dotted(), "profile.debug-info");
    assert_eq!(
        candidate.closed_values.clone().map(|values| values.into_iter().collect::<BTreeSet<_>>()),
        Some(BTreeSet::from(["full".to_owned(), "line-tables-only".to_owned(), "none".to_owned()]))
    );
    assert!(candidate.mechanisms.contains(&CandidateMechanism::JsonSchemaProperty));
    assert!(candidate.mechanisms.contains(&CandidateMechanism::JsonSchemaClosedValueSet));
    assert!(matches!(candidate.evidence[0].revision, Revision::Exact(_)));
}

#[test]
fn omits_open_properties_from_first_slice() {
    let schema = br#"{
        "type": "object",
        "properties": {
            "profile": {
                "type": "object",
                "properties": { "name": { "type": "string" } }
            }
        }
    }"#;

    assert!(extract_json_schema_candidates(&context(), "schema.json", schema).unwrap().is_empty());
}

#[test]
fn broken_local_reference_fails_closed() {
    let schema = br##"{
        "type": "object",
        "properties": { "profile": { "$ref": "#/$defs/Missing" } },
        "$defs": {}
    }"##;

    assert!(extract_json_schema_candidates(&context(), "schema.json", schema).is_err());
}

#[test]
fn schema_documents_must_be_objects_with_clean_locators() {
    let error = extract_json_schema_candidates(&context(), "schema.json", b"[]").unwrap_err();
    assert_eq!(error.message(), "invalid JSON Schema evidence: schema document root must be an object");
    let error = extract_json_schema_candidates(&context(), " schema.json", b"{}").unwrap_err();
    assert_eq!(
        error.message(),
        "invalid JSON Schema evidence: schema locator must be nonempty and trimmed"
    );
    let error = extract_json_schema_candidates(&context(), "schema.json", b"{\"contract\":").unwrap_err();
    assert!(error.message().starts_with("invalid JSON Schema evidence: EOF while parsing"));
}

#[test]
fn pointer_segments_escape_tilde_before_slash() {
    assert_eq!(escape_pointer_segment("plain"), "plain");
    assert_eq!(escape_pointer_segment("a/b~c"), "a~1b~0c");
    assert_eq!(escape_pointer_segment("~1"), "~01");
    assert_eq!(escape_pointer_segment(""), "");
}

const MANIFEST_RS: &str = r#"
#[serde(rename_all = "kebab-case")]
struct Manifest {
    profile: Profile,
}

#[serde(rename_all = "kebab-case")]
struct Profile {
    debug_info: DebugInfo,
}

#[serde(rename_all = "kebab-case")]
enum DebugInfo {
    None,
    Full,
}
"#;

// A syntax fact of `MANIFEST_RS`: the first occurrence of `text` at or after `from`.
fn rust_fact(kind: RustFactKind, name: Option<&str>, container: &[&str], text: &str, from: usize) -> RustFact {
    fact_in(MANIFEST_RS, kind, name, container, text, from)
}

// A syntax fact of `source`, as the Rust syntax adapter reports it: the first
// occurrence of `text` at or after `from`, with its container path.
fn fact_in(source: &str, kind: RustFactKind, name: Option<&str>, container: &[&str], text: &str, from: usize) -> RustFact {
    let start = from + source[from..].find(text).expect("fixture text");
    RustFact {
        kind,
        name: name.map(str::to_owned),
        container: container.iter().map(|part| (*part).to_owned()).collect(),
        span: ByteSpan { start_byte: start, end_byte: start + text.len() },
        text: text.to_owned(),
    }
}

fn manifest_facts() -> Vec<RustFact> {
    let attribute = "#[serde(rename_all = \"kebab-case\")]";
    let manifest = MANIFEST_RS.find("struct Manifest").unwrap();
    let profile = MANIFEST_RS.find("struct Profile").unwrap();
    let debug_info = MANIFEST_RS.find("enum DebugInfo").unwrap();
    vec![
        rust_fact(RustFactKind::Attribute, None, &[], attribute, 0),
        rust_fact(RustFactKind::Struct, Some("Manifest"), &[], "struct Manifest {\n    profile: Profile,\n}", 0),
        rust_fact(RustFactKind::Field, Some("profile"), &["Manifest"], "profile: Profile", manifest),
        rust_fact(RustFactKind::TypeExpression, None, &["Manifest"], "Profile", manifest + "struct Manifest {\n    profile: ".len()),
        rust_fact(RustFactKind::Attribute, None, &[], attribute, manifest),
        rust_fact(RustFactKind::Struct, Some("Profile"), &[], "struct Profile {\n    debug_info: DebugInfo,\n}", 0),
        rust_fact(RustFactKind::Field, Some("debug_info"), &["Profile"], "debug_info: DebugInfo", profile),
        rust_fact(RustFactKind::TypeExpression, None, &["Profile"], "DebugInfo", profile + "struct Profile {\n    debug_info: ".len()),
        rust_fact(RustFactKind::Attribute, None, &[], attribute, profile),
        rust_fact(RustFactKind::Enum, Some("DebugInfo"), &[], "enum DebugInfo {\n    None,\n    Full,\n}", 0),
        rust_fact(RustFactKind::Variant, Some("None"), &["DebugInfo"], "None", debug_info),
        rust_fact(RustFactKind::Variant, Some("Full"), &["DebugInfo"], "Full", debug_info),
    ]
}

#[test]
fn analyze_tree_extracts_aligns_and_assembles_read_sources() {
    let context = AnalysisSourceContext::github(
        "acme/fixture-project",
        Revision::Exact("0123456789abcdef0123456789abcdef01234567".to_owned()),
    )
    .unwrap();
    let inputs = vec![
        SourceInput {
            relative_path: vec!["manifest.rs".to_owned()],
            kind: SourceFileKind::Rust,
            bytes: Ok(MANIFEST_RS.as_bytes().to_vec()),
            rust: Ok(RustExtraction { facts: manifest_facts(), diagnostics: 0 }),
        },
        SourceInput {
            relative_path: vec!["manifest.schema.json".to_owned()],
            kind: SourceFileKind::Json,
            bytes: Ok(br#"{"properties":{"profile":{"properties":{"debug-info":{"enum":["None","Full"]}}}}}"#.to_vec()),
            rust: Err("not a Rust source".to_owned()),
        },
    ];
    let graph = analyze_tree(&context, inputs).expect("graph");
    assert_eq!(graph.contracts.len(), 1);
    assert_eq!(graph.contracts[0].id, "fixture-project.profile.debug-info");

    let unreadable = vec![SourceInput {
        relative_path: vec!["manifest.rs".to_owned()],
        kind: SourceFileKind::Rust,
        bytes: Err("permission denied".to_owned()),
        rust: Err("not a Rust source".to_owned()),
    }];
    assert!(analyze_tree(&context, unreadable).is_err());

    let malformed = vec![SourceInput {
        relative_path: vec!["broken.json".to_owned()],
        kind: SourceFileKind::Json,
        bytes: Ok(b"{\"contract\":".to_vec()),
        rust: Err("not a Rust source".to_owned()),
    }];
    let error = analyze_tree(&context, malformed).expect_err("malformed supported source must fail closed");
    let text = format!("{error:?}");
    assert!(text.contains("broken.json") && text.contains("JSON"), "{text}");
    assert!(error.message().starts_with("invalid JSON source broken.json: EOF while parsing"));
}

#[test]
fn analyze_rejects_malformed_rust_source() {
    let context = AnalysisSourceContext::github(
        "acme/fixture-project",
        Revision::Exact("0123456789abcdef0123456789abcdef01234567".to_owned()),
    )
    .unwrap();
    let example = SourceInput {
        relative_path: vec!["example.rs".to_owned()],
        kind: SourceFileKind::Rust,
        bytes: Ok(b"pub enum State { PendingReview, Complete }\n".to_vec()),
        rust: Ok(RustExtraction { facts: Vec::new(), diagnostics: 0 }),
    };
    let broken = SourceInput {
        relative_path: vec!["broken.rs".to_owned()],
        kind: SourceFileKind::Rust,
        bytes: Ok(b"pub struct Broken {\n".to_vec()),
        rust: Ok(RustExtraction { facts: Vec::new(), diagnostics: 1 }),
    };
    let error = analyze_tree(&context, vec![example, broken]).expect_err("malformed supported source must fail closed");
    let text = error.message();
    assert!(text.contains("broken.rs") && text.contains("Rust"), "{text}");
    assert_eq!(text, "invalid Rust projection: Rust source broken.rs has 1 parse diagnostics");

    let unparsed = SourceInput {
        relative_path: vec!["broken.rs".to_owned()],
        kind: SourceFileKind::Rust,
        bytes: Ok(b"pub struct Broken {\n".to_vec()),
        rust: Err("parser refused the source".to_owned()),
    };
    let error = analyze_tree(&context, vec![unparsed]).expect_err("unparsed Rust source must fail closed");
    assert_eq!(error.message(), "invalid Rust projection: Rust source broken.rs: parser refused the source");
}

#[test]
fn schema_candidates_come_from_a_parsed_document() {
    let context = context();
    let member = |key: &str, value: JsonValue| JsonMember { key: key.to_owned(), value };
    let document = JsonValue::Object(vec![member(
        "properties",
        JsonValue::Object(vec![member(
            "mode",
            JsonValue::Object(vec![member(
                "enum",
                JsonValue::Array(vec![JsonValue::Text("b".to_owned()), JsonValue::Text("a".to_owned())]),
            )]),
        )]),
    )]);
    let candidates = schema_document_candidates(&context, "schema.json", Ok(document)).unwrap();
    assert_eq!(candidates.len(), 1);
    assert_eq!(candidates[0].semantic_path.dotted(), "mode");
    assert_eq!(candidates[0].closed_values, Some(vec!["a".to_owned(), "b".to_owned()]));

    let error = schema_document_candidates(&context, "schema.json", Err("EOF while parsing".to_owned())).unwrap_err();
    assert!(error.message().contains("EOF while parsing"));
    let error = schema_document_candidates(&context, "schema.json", Ok(JsonValue::Null)).unwrap_err();
    assert!(error.message().contains("schema document root must be an object"));
}

fn extraction(facts: Vec<RustFact>) -> Result<RustExtraction, String> {
    Ok(RustExtraction { facts, diagnostics: 0 })
}

const KEBAB: &str = "#[serde(rename_all = \"kebab-case\")]";

#[test]
fn projects_unique_serde_field_chain_and_closed_enum() {
    let source = r#"
#[serde(rename_all = "kebab-case")]
struct Manifest {
    profile: Profile,
}

#[serde(rename_all = "kebab-case")]
struct Profile {
    debug_info: DebugInfo,
}

#[serde(rename_all = "kebab-case")]
enum DebugInfo {
    None,
    LineTablesOnly,
    Full,
}
"#;
    let manifest = source.find("struct Manifest").unwrap();
    let profile = source.find("struct Profile").unwrap();
    let debug_info = source.find("enum DebugInfo").unwrap();
    let facts = vec![
        fact_in(source, RustFactKind::Attribute, None, &[], KEBAB, 0),
        fact_in(source, RustFactKind::Struct, Some("Manifest"), &[], "struct Manifest {\n    profile: Profile,\n}", 0),
        fact_in(source, RustFactKind::Field, Some("profile"), &["Manifest"], "profile: Profile", manifest),
        fact_in(source, RustFactKind::TypeExpression, None, &["Manifest"], "Profile", manifest + "struct Manifest {\n    profile: ".len()),
        fact_in(source, RustFactKind::Attribute, None, &[], KEBAB, manifest),
        fact_in(source, RustFactKind::Struct, Some("Profile"), &[], "struct Profile {\n    debug_info: DebugInfo,\n}", 0),
        fact_in(source, RustFactKind::Field, Some("debug_info"), &["Profile"], "debug_info: DebugInfo", profile),
        fact_in(source, RustFactKind::TypeExpression, None, &["Profile"], "DebugInfo", profile + "struct Profile {\n    debug_info: ".len()),
        fact_in(source, RustFactKind::Attribute, None, &[], KEBAB, profile),
        fact_in(source, RustFactKind::Enum, Some("DebugInfo"), &[], "enum DebugInfo {\n    None,\n    LineTablesOnly,\n    Full,\n}", 0),
        fact_in(source, RustFactKind::Variant, Some("None"), &["DebugInfo"], "None", debug_info),
        fact_in(source, RustFactKind::Variant, Some("LineTablesOnly"), &["DebugInfo"], "LineTablesOnly", debug_info),
        fact_in(source, RustFactKind::Variant, Some("Full"), &["DebugInfo"], "Full", debug_info),
    ];

    let candidates =
        extract_rust_candidates(&context(), "src/lib.rs", source.as_bytes(), extraction(facts)).unwrap();
    let candidate = candidates
        .iter()
        .find(|candidate| candidate.semantic_path.dotted() == "profile.debug-info")
        .expect("serialized nested path should be mechanically derivable");

    assert_eq!(
        candidate.closed_values.clone().map(|values| values.into_iter().collect::<BTreeSet<_>>()),
        Some(BTreeSet::from(["full".to_owned(), "line-tables-only".to_owned(), "none".to_owned()]))
    );
    assert!(candidate.mechanisms.contains(&CandidateMechanism::RustSerializedField));
    assert!(candidate.mechanisms.contains(&CandidateMechanism::RustTypeReference));
    assert!(candidate.mechanisms.contains(&CandidateMechanism::RustClosedValueSet));
    assert!(matches!(candidate.evidence[0].revision, Revision::Exact(_)));
}

#[test]
fn traverses_unique_transparent_newtype_without_inventing_a_path_segment() {
    let source = r#"
#[serde(rename_all = "kebab-case")]
struct Root {
    profiles: Profiles,
}

struct Profiles(BTreeMap<ProfileName, Profile>);

#[serde(rename_all = "kebab-case")]
struct Profile {
    debug: DebugInfo,
}

#[serde(rename_all = "kebab-case")]
enum DebugInfo {
    None,
    Full,
}
"#;
    let root = source.find("struct Root").unwrap();
    let profiles = source.find("struct Profiles").unwrap();
    let profile = source.find("struct Profile {").unwrap();
    let debug_info = source.find("enum DebugInfo").unwrap();
    let inner = "BTreeMap<ProfileName, Profile>";
    let facts = vec![
        fact_in(source, RustFactKind::Attribute, None, &[], KEBAB, 0),
        fact_in(source, RustFactKind::Struct, Some("Root"), &[], "struct Root {\n    profiles: Profiles,\n}", 0),
        fact_in(source, RustFactKind::Field, Some("profiles"), &["Root"], "profiles: Profiles", root),
        fact_in(source, RustFactKind::TypeExpression, None, &["Root"], "Profiles", root + "struct Root {\n    profiles: ".len()),
        fact_in(source, RustFactKind::Struct, Some("Profiles"), &[], "struct Profiles(BTreeMap<ProfileName, Profile>);", 0),
        fact_in(source, RustFactKind::Field, None, &["Profiles"], inner, profiles),
        fact_in(source, RustFactKind::TypeExpression, None, &["Profiles"], inner, profiles),
        fact_in(source, RustFactKind::Attribute, None, &[], KEBAB, profiles),
        fact_in(source, RustFactKind::Struct, Some("Profile"), &[], "struct Profile {\n    debug: DebugInfo,\n}", 0),
        fact_in(source, RustFactKind::Field, Some("debug"), &["Profile"], "debug: DebugInfo", profile),
        fact_in(source, RustFactKind::TypeExpression, None, &["Profile"], "DebugInfo", profile + "struct Profile {\n    debug: ".len()),
        fact_in(source, RustFactKind::Attribute, None, &[], KEBAB, profile),
        fact_in(source, RustFactKind::Enum, Some("DebugInfo"), &[], "enum DebugInfo {\n    None,\n    Full,\n}", 0),
        fact_in(source, RustFactKind::Variant, Some("None"), &["DebugInfo"], "None", debug_info),
        fact_in(source, RustFactKind::Variant, Some("Full"), &["DebugInfo"], "Full", debug_info),
    ];

    let candidates =
        extract_rust_candidates(&context(), "src/lib.rs", source.as_bytes(), extraction(facts)).unwrap();
    let candidate = candidates
        .iter()
        .find(|candidate| candidate.semantic_path.dotted() == "profiles.debug")
        .expect("unique newtype wrapper should preserve the consumer path while traversing its inner local type");

    assert_eq!(
        candidate.closed_values.clone().map(|values| values.into_iter().collect::<BTreeSet<_>>()),
        Some(BTreeSet::from(["full".to_owned(), "none".to_owned()]))
    );
    assert!(candidate
        .evidence
        .iter()
        .any(|evidence| evidence.fact.contains("transparent wrapper") && evidence.fact.contains("Profile")));
}

// The facts of one `mod NAME { struct Leaf { value: Value } enum Value { One, Two } }`.
fn module_facts(source: &str, module: &str) -> Vec<RustFact> {
    let at = source.find(&format!("mod {module}")).unwrap();
    let leaf = at + source[at..].find("struct Leaf").unwrap();
    let value = at + source[at..].find("enum Value").unwrap();
    vec![
        fact_in(source, RustFactKind::Module, Some(module), &[], &format!("mod {module}"), at),
        fact_in(source, RustFactKind::Attribute, None, &[module], KEBAB, at),
        fact_in(source, RustFactKind::Struct, Some("Leaf"), &[module], "struct Leaf { value: Value }", at),
        fact_in(source, RustFactKind::Field, Some("value"), &[module, "Leaf"], "value: Value", leaf),
        fact_in(source, RustFactKind::TypeExpression, None, &[module, "Leaf"], "Value", leaf + "struct Leaf { value: ".len()),
        fact_in(source, RustFactKind::Attribute, None, &[module], KEBAB, leaf),
        fact_in(source, RustFactKind::Enum, Some("Value"), &[module], "enum Value { One, Two }", at),
        fact_in(source, RustFactKind::Variant, Some("One"), &[module, "Value"], "One", value),
        fact_in(source, RustFactKind::Variant, Some("Two"), &[module, "Value"], "Two", value),
    ]
}

#[test]
fn ambiguous_same_named_type_edges_do_not_resolve() {
    let source = r#"
mod left {
    #[serde(rename_all = "kebab-case")]
    struct Leaf { value: Value }
    #[serde(rename_all = "kebab-case")]
    enum Value { One, Two }
}
mod right {
    #[serde(rename_all = "kebab-case")]
    struct Leaf { value: Value }
    #[serde(rename_all = "kebab-case")]
    enum Value { One, Two }
}
#[serde(rename_all = "kebab-case")]
struct Root { leaf: Leaf }
"#;
    let root = source.find("struct Root").unwrap();
    let mut facts = module_facts(source, "left");
    facts.extend(module_facts(source, "right"));
    facts.extend(vec![
        fact_in(source, RustFactKind::Attribute, None, &[], KEBAB, source.find("}\n#[serde").unwrap()),
        fact_in(source, RustFactKind::Struct, Some("Root"), &[], "struct Root { leaf: Leaf }", 0),
        fact_in(source, RustFactKind::Field, Some("leaf"), &["Root"], "leaf: Leaf", root),
        fact_in(source, RustFactKind::TypeExpression, None, &["Root"], "Leaf", root + "struct Root { leaf: ".len()),
    ]);

    assert!(extract_rust_candidates(&context(), "src/lib.rs", source.as_bytes(), extraction(facts)).unwrap().is_empty());
}

#[test]
fn field_without_explicit_or_derivable_serialization_rule_is_not_a_path() {
    let source = r#"
struct Root { leaf: Leaf }
#[serde(rename_all = "kebab-case")]
enum Leaf { One, Two }
"#;
    let root = source.find("struct Root").unwrap();
    let leaf = source.find("enum Leaf").unwrap();
    let facts = vec![
        fact_in(source, RustFactKind::Struct, Some("Root"), &[], "struct Root { leaf: Leaf }", 0),
        fact_in(source, RustFactKind::Field, Some("leaf"), &["Root"], "leaf: Leaf", root),
        fact_in(source, RustFactKind::TypeExpression, None, &["Root"], "Leaf", root + "struct Root { leaf: ".len()),
        fact_in(source, RustFactKind::Attribute, None, &[], KEBAB, 0),
        fact_in(source, RustFactKind::Enum, Some("Leaf"), &[], "enum Leaf { One, Two }", 0),
        fact_in(source, RustFactKind::Variant, Some("One"), &["Leaf"], "One", leaf),
        fact_in(source, RustFactKind::Variant, Some("Two"), &["Leaf"], "Two", leaf),
    ];

    assert!(extract_rust_candidates(&context(), "src/lib.rs", source.as_bytes(), extraction(facts)).unwrap().is_empty());
}
