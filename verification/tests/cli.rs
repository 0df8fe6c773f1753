use chirograph::benchmark::cli::{parse_args, Command, OutputFormat};
use chirograph::cli::{
    alignment_state_name, help_text, parse_analysis_revision, parse_cli, parse_facet, revision_name, CliCommand,
};
use chirograph::model::{AlignmentState, ContractFacet, Revision};
use chirograph::render::{
    render_alignment, render_authority, render_contestations, render_evidence, render_graph, AlignmentEntry,
    AuthorityBasis, AuthorityEntry, ClaimEntry, ClauseEntry, ClauseKind, ClauseStatus, ContractEntry, EvidenceEntry,
};

fn parse(args: &[&str]) -> Result<Command, String> {
    parse_args(args.iter().map(|value| (*value).to_owned()).collect())
}

fn parse_command(args: &[&str]) -> Result<CliCommand, String> {
    parse_cli(args.iter().map(|value| (*value).to_owned()).collect())
}

#[test]
fn parses_documented_cli_forms() {
    assert_eq!(parse(&["--help"]), Ok(Command::Help));
    assert_eq!(parse(&["--list"]), Ok(Command::List));
    assert!(matches!(parse(&["all"]), Ok(Command::Run(_))));
    assert!(matches!(parse(&["cargo"]), Ok(Command::Run(_))));
    assert!(matches!(
        parse(&["--verify-sources"]),
        Ok(Command::VerifySources { selector }) if selector == "all"
    ));
    assert!(matches!(
        parse(&["--verify-sources", "cargo"]),
        Ok(Command::VerifySources { selector }) if selector == "cargo"
    ));
    assert!(matches!(
        parse(&[
            "--refresh",
            "cargo/schema-enum-drift/toml-debug-info-spellings",
            "--revision",
            "0123456789abcdef0123456789abcdef01234567",
        ]),
        Ok(Command::Refresh { selector, revision })
            if selector == "cargo/schema-enum-drift/toml-debug-info-spellings"
                && revision == "0123456789abcdef0123456789abcdef01234567"
    ));
    assert!(matches!(
        parse(&[
            "cargo",
            "--baseline",
            "baseline.json",
            "--chirograph-bin",
            "target/debug/chirograph",
            "--format",
            "json",
        ]),
        Ok(Command::Run(options))
            if options.selector == "cargo"
                && options.baseline == Some("baseline.json".to_string())
                && options.chirograph_bin == Some("target/debug/chirograph".to_string())
                && options.format == OutputFormat::Json
    ));
}

#[test]
fn rejects_cli_surface_expansion_and_invalid_revision() {
    assert!(parse(&["--all"]).is_err());
    assert!(parse(&["--refresh", "cargo", "--revision", "main"]).is_err());
    assert!(parse(&["all", "--format", "yaml"]).is_err());
    assert!(parse(&["all", "--unknown", "value"]).is_err());
    assert!(parse(&["all", "--baseline", "baseline.json", "--write-baseline", "next.json",]).is_err());
}

#[test]
fn benchmark_cli_errors_name_the_offending_argument() {
    assert_eq!(parse(&[]), Err("missing selector; use --help for usage".to_owned()));
    assert_eq!(parse(&["--list", "x"]), Err("unexpected argument: x".to_owned()));
    assert_eq!(parse(&["all", "--baseline"]), Err("--baseline requires a value".to_owned()));
    assert_eq!(
        parse(&["all", "--baseline", "a", "--baseline", "b"]),
        Err("--baseline may be specified only once".to_owned())
    );
    assert_eq!(parse(&["all", "--format", "yaml"]), Err("--format supports only json".to_owned()));
    assert!(matches!(
        parse(&["--refresh", "cargo", "--revision", "0123456789ABCDEF0123456789ABCDEF01234567"]),
        Ok(Command::Refresh { revision, .. }) if revision == "0123456789abcdef0123456789abcdef01234567"
    ));
}

#[test]
fn chirograph_cli_reads_each_documented_command() {
    assert_eq!(parse_command(&[]), Ok(CliCommand::Help));
    assert_eq!(parse_command(&["--help"]), Ok(CliCommand::Help));
    assert_eq!(parse_command(&["-V"]), Ok(CliCommand::Version));
    assert_eq!(
        parse_command(&[
            "analyze",
            "tree",
            "--source-repository",
            "acme/project",
            "--revision",
            "unknown",
            "--format",
            "graph-json",
        ]),
        Ok(CliCommand::Analyze {
            path: "tree".into(),
            repository: "acme/project".into(),
            revision: "unknown".into()
        })
    );
    assert_eq!(
        parse_command(&["authority", "e.json", "review-status", "semantic"]),
        Ok(CliCommand::Authority {
            path: "e.json".into(),
            contract: "review-status".into(),
            facet: "semantic".into()
        })
    );
    let refused = parse_command(&["inspect"]).unwrap_err();
    assert_eq!(refused, format!("invalid arguments\n\n{}", help_text()));
    assert!(help_text().starts_with("Usage:\n  chirograph analyze"));
}

#[test]
fn analysis_revisions_are_named_or_full_hashes() {
    assert_eq!(parse_analysis_revision("unversioned"), Ok(Revision::Unversioned));
    assert_eq!(parse_analysis_revision("unknown"), Ok(Revision::Unknown));
    assert_eq!(
        parse_analysis_revision("0123456789abcdef0123456789abcdef01234567"),
        Ok(Revision::Exact("0123456789abcdef0123456789abcdef01234567".into()))
    );
    assert_eq!(
        parse_analysis_revision("main"),
        Err("invalid revision \"main\": expected 40 hexadecimal characters, \"unversioned\", or \"unknown\"".into())
    );
}

#[test]
fn facets_and_states_have_stable_names() {
    assert_eq!(parse_facet("structural"), Ok(ContractFacet::Structure));
    assert_eq!(parse_facet("verification"), Ok(ContractFacet::Verification));
    assert_eq!(parse_facet("Semantic"), Err("invalid contract facet \"Semantic\"".into()));
    assert_eq!(alignment_state_name(AlignmentState::Unresolved), "UNRESOLVED");
    assert_eq!(revision_name(&Revision::Exact("abc".into())), "exact:abc");
    assert_eq!(revision_name(&Revision::Unknown), "unknown");
}

#[test]
fn inspect_text_lists_contracts_in_id_order_with_clauses_and_claims() {
    let contracts = vec![
        ContractEntry { id: "contract.b".to_owned(), name: "B".to_owned() },
        ContractEntry { id: "contract.a".to_owned(), name: "A".to_owned() },
    ];
    let clauses = vec![
        ClauseEntry {
            id: "clause.2".to_owned(),
            contract: "contract.a".to_owned(),
            facet: ContractFacet::Semantic,
            kind: ClauseKind::Guarantee,
            statement: "retries are safe".to_owned(),
            status: ClauseStatus::Contested,
            supporting: vec!["obs.1".to_owned(), "obs.2".to_owned()],
            contradicting: vec!["obs.3".to_owned()],
        },
        ClauseEntry {
            id: "clause.1".to_owned(),
            contract: "contract.a".to_owned(),
            facet: ContractFacet::Structure,
            kind: ClauseKind::Requirement,
            statement: "field exists".to_owned(),
            status: ClauseStatus::Consistent,
            supporting: vec!["obs.1".to_owned()],
            contradicting: Vec::new(),
        },
    ];
    let claims = vec![ClaimEntry {
        contract: "contract.a".to_owned(),
        facet: ContractFacet::Structure,
        representation: "rep.x".to_owned(),
        basis: AuthorityBasis::ExplicitDeclaration,
    }];
    let text = render_graph(contracts, &clauses, &claims);
    assert_eq!(
        text,
        "contract contract.a \u{2014} A\n\
         \x20 semantic clause clause.2 [guarantee] CONTESTED\n\
         \x20   retries are safe\n\
         \x20   supports: obs.1, obs.2\n\
         \x20   contradicts: obs.3\n\
         \x20 structural clause clause.1 [requirement] CONSISTENT\n\
         \x20   field exists\n\
         \x20   supports: obs.1\n\
         \x20 authority structural: rep.x (explicit_declaration)\n\
         contract contract.b \u{2014} B\n"
    );
    assert_eq!(render_graph(Vec::new(), &clauses, &claims), "");
}

#[test]
fn contestations_text_keeps_both_sides_of_a_disagreement() {
    let rows = vec![ClauseEntry {
        id: "review-wire-value".to_owned(),
        contract: "review-status".to_owned(),
        facet: ContractFacet::Semantic,
        kind: ClauseKind::Guarantee,
        statement: "status is one of open, closed".to_owned(),
        status: ClauseStatus::Contested,
        supporting: vec!["runtime-status".to_owned(), "schema-status".to_owned()],
        contradicting: vec!["docs-status".to_owned()],
    }];
    assert_eq!(
        render_contestations(&rows),
        "semantic clause review-wire-value [guarantee] CONTESTED\n\
         \x20 status is one of open, closed\n\
         \x20 supports: runtime-status, schema-status\n\
         \x20 contradicts: docs-status\n"
    );
    assert_eq!(render_contestations(&Vec::new()), "");
}

#[test]
fn evidence_authority_and_alignment_texts_list_every_entry() {
    let evidence = vec![
        EvidenceEntry {
            id: "obs-docs".to_owned(),
            source: "github:owner/repo".to_owned(),
            revision: Revision::Unversioned,
            locator: "docs/status.md".to_owned(),
            fact: "status may be archived".to_owned(),
        },
        EvidenceEntry {
            id: "obs-runtime".to_owned(),
            source: "github:owner/repo".to_owned(),
            revision: Revision::Exact("0123456789abcdef0123456789abcdef01234567".to_owned()),
            locator: "src/status.rs".to_owned(),
            fact: "enum Status".to_owned(),
        },
    ];
    assert_eq!(
        render_evidence("review-status", &evidence),
        "evidence review-status\n\
         \x20 obs-docs source=github:owner/repo revision=unversioned locator=docs/status.md\n\
         \x20   status may be archived\n\
         \x20 obs-runtime source=github:owner/repo revision=exact:0123456789abcdef0123456789abcdef01234567 locator=src/status.rs\n\
         \x20   enum Status\n"
    );

    let claims = vec![
        AuthorityEntry {
            representation: "runtime-status".to_owned(),
            basis: AuthorityBasis::ObservedBehavior,
            evidence: vec!["obs-runtime".to_owned()],
        },
        AuthorityEntry {
            representation: "schema-status".to_owned(),
            basis: AuthorityBasis::ExplicitDeclaration,
            evidence: vec!["obs-schema".to_owned(), "obs-docs".to_owned()],
        },
    ];
    assert_eq!(
        render_authority("review-status", ContractFacet::Semantic, &claims),
        "authority review-status semantic\n\
         \x20 runtime-status (observed_behavior) evidence=obs-runtime\n\
         \x20 schema-status (explicit_declaration) evidence=obs-schema, obs-docs\n"
    );

    let alignments = vec![
        AlignmentEntry {
            facet: ContractFacet::Structure,
            contract: "review-status".to_owned(),
            state: AlignmentState::Rejected,
            evidence: vec!["obs-docs".to_owned()],
        },
        AlignmentEntry {
            facet: ContractFacet::Semantic,
            contract: "review-status".to_owned(),
            state: AlignmentState::Unresolved,
            evidence: Vec::new(),
        },
    ];
    assert_eq!(
        render_alignment("candidate-example", &alignments),
        "alignment candidate-example\n\
         \x20 structural review-status REJECTED evidence=obs-docs\n\
         \x20 semantic review-status UNRESOLVED evidence=\n"
    );
}
