use chirograph::benchmark::model::{
    GoldenAuthorityClaimV1, GoldenClauseV1, GoldenContractV1, GoldenFindingV1, GoldenLifecycleV1,
    GoldenNonContractV1, GoldenRelationshipV1, GoldenRepresentationV1, GoldenV1, GraphNodeRefV1,
};
use chirograph::benchmark::score::{
    score_case, Counts, ObservedAssessment, ObservedAuthority, ObservedGraph, ObservedLifecycle, ObservedPlacement,
    ObservedRelation,
};

// The ratios that a report derives from the exact counts.
fn ratio(counts: &Counts) -> Option<f64> {
    (counts.denominator != 0).then_some(counts.numerator as f64 / counts.denominator as f64)
}

fn f1(precision: Option<f64>, recall: Option<f64>) -> Option<f64> {
    let (precision, recall) = (precision?, recall?);
    if precision + recall == 0.0 {
        Some(0.0)
    } else {
        Some(2.0 * precision * recall / (precision + recall))
    }
}

fn inflation(observed: u64, golden: u64) -> f64 {
    if golden == 0 {
        observed as f64
    } else {
        observed as f64 / golden as f64
    }
}

fn node(kind: &str, id: &str) -> GraphNodeRefV1 {
    GraphNodeRefV1 { kind: kind.to_owned(), id: id.to_owned() }
}

fn contract(id: &str) -> GoldenContractV1 {
    GoldenContractV1 { id: id.to_owned(), facets: vec!["structural".to_owned()] }
}

fn golden() -> GoldenV1 {
    GoldenV1 {
        schema: "chirograph-benchmark-golden-v1".to_owned(),
        contracts: Vec::new(),
        representations: Vec::new(),
        authority_claims: Vec::new(),
        relationships: Vec::new(),
        clauses: Vec::new(),
        lifecycle: Vec::new(),
        expected_findings: Vec::new(),
        non_contracts: Vec::new(),
    }
}

fn observed() -> ObservedGraph {
    ObservedGraph {
        contracts: Vec::new(),
        representations: Vec::new(),
        relations: Vec::new(),
        authority_claims: Vec::new(),
        clause_assessments: Vec::new(),
        lifecycle: Vec::new(),
    }
}

#[test]
fn scores_perfect_missing_false_and_zero_contract_emission() {
    let mut expected = golden();
    expected.contracts = vec![contract("contract.a"), contract("contract.b")];

    let mut actual = observed();
    actual.contracts = vec!["contract.a".to_owned(), "contract.b".to_owned()];
    let perfect = score_case(&expected, &actual);
    assert_eq!(ratio(&perfect.contract_precision), Some(1.0));
    assert_eq!(ratio(&perfect.contract_recall), Some(1.0));
    assert_eq!(f1(ratio(&perfect.contract_precision), ratio(&perfect.contract_recall)), Some(1.0));
    assert_eq!(ratio(&perfect.false_contract_rate), Some(0.0));
    assert_eq!(inflation(perfect.contract_precision.denominator, perfect.contract_recall.denominator), 1.0);

    actual.contracts = vec!["contract.a".to_owned(), "contract.false".to_owned()];
    let mixed = score_case(&expected, &actual);
    assert_eq!(ratio(&mixed.contract_precision), Some(0.5));
    assert_eq!(ratio(&mixed.contract_recall), Some(0.5));
    assert_eq!(f1(ratio(&mixed.contract_precision), ratio(&mixed.contract_recall)), Some(0.5));
    assert_eq!(ratio(&mixed.false_contract_rate), Some(0.5));
    assert_eq!(inflation(mixed.contract_precision.denominator, mixed.contract_recall.denominator), 1.0);

    actual.contracts.clear();
    let zero = score_case(&expected, &actual);
    assert_eq!(ratio(&zero.contract_precision), None);
    assert_eq!(ratio(&zero.contract_recall), Some(0.0));
    assert_eq!(f1(ratio(&zero.contract_precision), ratio(&zero.contract_recall)), None);
    assert_eq!(ratio(&zero.false_contract_rate), None);
    assert_eq!(inflation(zero.contract_precision.denominator, zero.contract_recall.denominator), 0.0);
}

#[test]
fn scores_authority_and_relationships_by_exact_typed_identity() {
    let mut expected = golden();
    expected.contracts = vec![contract("contract.a")];
    expected.representations = vec![GoldenRepresentationV1 {
        id: "rep.a".to_owned(),
        contract: "contract.a".to_owned(),
        kind: "schema".to_owned(),
        locator: "schema.json".to_owned(),
        facets: vec!["structural".to_owned(), "semantic".to_owned(), "verification".to_owned()],
    }];
    for facet in ["structural", "semantic", "verification"] {
        expected.authority_claims.push(GoldenAuthorityClaimV1 {
            contract: "contract.a".to_owned(),
            facet: facet.to_owned(),
            representation: "rep.a".to_owned(),
            basis: "mechanical-enforcement".to_owned(),
        });
    }
    expected.relationships = vec![GoldenRelationshipV1 {
        from: node("contract", "contract.a"),
        kind: "projects".to_owned(),
        to: node("representation", "rep.a"),
    }];

    let mut actual = observed();
    actual.contracts = vec!["contract.a".to_owned()];
    actual.authority_claims = vec![
        ObservedAuthority {
            contract: "contract.a".to_owned(),
            representation: "rep.a".to_owned(),
            facet: "structural".to_owned(),
        },
        ObservedAuthority {
            contract: "contract.a".to_owned(),
            representation: "rep.a".to_owned(),
            facet: "semantic".to_owned(),
        },
        ObservedAuthority {
            contract: "contract.a".to_owned(),
            representation: "rep.wrong".to_owned(),
            facet: "verification".to_owned(),
        },
    ];
    actual.relations = vec![
        ObservedRelation {
            from: node("contract", "contract.a"),
            kind: "projects".to_owned(),
            to: node("representation", "rep.a"),
        },
        ObservedRelation {
            from: node("contract", "contract.a"),
            kind: "implements".to_owned(),
            to: node("representation", "rep.a"),
        },
    ];

    let score = score_case(&expected, &actual);
    assert_eq!(score.authority_correctness.numerator, 2);
    assert_eq!(score.authority_correctness.denominator, 3);
    assert_eq!(ratio(&score.authority_correctness), Some(2.0 / 3.0));
    assert_eq!(ratio(&score.relationship_precision), Some(0.5));
    assert_eq!(ratio(&score.relationship_recall), Some(1.0));
}

#[test]
fn scores_lifecycle_findings_and_known_negative_diagnostics() {
    let mut expected = golden();
    expected.contracts = vec![contract("contract.a")];
    expected.clauses = vec![GoldenClauseV1 {
        id: "clause.a".to_owned(),
        contract: "contract.a".to_owned(),
        facet: "structural".to_owned(),
        kind: "invariant".to_owned(),
        statement: "A must hold.".to_owned(),
    }];
    expected.expected_findings = vec![GoldenFindingV1::ContestedClause { clause: "clause.a".to_owned() }];
    expected.lifecycle = vec![GoldenLifecycleV1 { subject: node("contract", "contract.a"), status: "active".to_owned() }];
    expected.non_contracts = vec![GoldenNonContractV1 {
        locator: "src/detail.rs".to_owned(),
        reason: "implementation-detail".to_owned(),
    }];

    let mut actual = observed();
    actual.contracts = vec!["contract.a".to_owned(), "contract.false".to_owned()];
    actual.representations = vec![ObservedPlacement {
        contract: "contract.false".to_owned(),
        locator: "src/detail.rs".to_owned(),
    }];
    actual.clause_assessments = vec![
        ObservedAssessment { clause: "clause.a".to_owned(), status: "contested".to_owned() },
        ObservedAssessment { clause: "clause.extra".to_owned(), status: "contested".to_owned() },
    ];

    let unavailable = score_case(&expected, &actual);
    assert_eq!(unavailable.lifecycle_correctness, None);
    assert!(unavailable.diagnostics.contains(&"lifecycle_not_observed".to_owned()));
    assert_eq!(ratio(&unavailable.finding_precision), Some(0.5));
    assert_eq!(ratio(&unavailable.finding_recall), Some(1.0));
    assert!(unavailable.diagnostics.contains(&"known_non_contract_promoted".to_owned()));

    actual.lifecycle = vec![ObservedLifecycle { subject: node("contract", "contract.a"), status: "active".to_owned() }];
    let observed_lifecycle = score_case(&expected, &actual);
    assert_eq!(observed_lifecycle.lifecycle_correctness.as_ref().and_then(ratio), Some(1.0));
}
