//! Assembly of a contract graph and an alignment catalog from candidates.
//!
//! Candidates are put in a total order. A semantic path with exactly one
//! eligible Rust source candidate and one eligible schema candidate whose closed
//! value sets differ is promoted to a contract with two representations and two
//! confirmed claims; the distinct evidence of the promoted candidates becomes the
//! graph's observations, and every other candidate stays an observed
//! representation. Beside the graph stand the alignment decisions, one for each
//! semantic path.

use vstd::prelude::*;
use crate::analysis::alignment::{
    align_candidates, aligned_paths, alignment, decision_views, distinct_paths, AlignmentDecision,
    DecisionView,
};
use crate::analysis::candidate::{
    all_valid, all_wf, candidate_views, with_sorted_evidence, clone_candidate, clone_evidence, evidence_key, evidence_key_fn,
    evidence_views, sorted_evidence, texts_eq, CandidateEvidence, CandidateMechanism, CandidateView,
    EvidenceView, RepresentationCandidate, SemanticPath,
};
use crate::analysis::context::AnalysisSourceContext;
use crate::analysis::error::{AnalysisError, AnalysisErrorView};
use crate::json::{decimal, push_decimal};
use crate::model::{
    clone_revision, facet_rank, kind_rank, kind_rank_of, revision_eq, AlignmentState,
    ContractFacet, RepresentationKind, Revision, RevisionView,
};
use crate::order::{
    ascending_by, ascending_of, key_of, key_lt, lemma_ascending_unique, lemma_same_members_set,
    lemma_stable_sort_map, push_rank_key, push_text_key, push_texts_key, rank_key, sort_by_key,
    stable_sort_by, text_key, text_key_fn, texts_key, SortKey,
};
use crate::text::{cat2, cat3, joined, owned, push_char, push_str, text_eq, views};

verus! {

/// The kinds of source a graph records.
#[derive(Debug, Clone, Copy, PartialEq, Eq, Structural)]
pub enum SourceKind {
    Repository,
}

/// A source of evidence.
#[derive(Debug, Clone, PartialEq, Eq)]
pub struct SourceRecord {
    pub id: String,
    pub kind: SourceKind,
    pub locator: String,
}

/// One observed fact, with its provenance.
#[derive(Debug, Clone, PartialEq, Eq)]
pub struct Observation {
    pub id: String,
    pub source: String,
    pub revision: Revision,
    pub locator: String,
    pub fact: String,
}

/// A logical contract.
#[derive(Debug, Clone, PartialEq, Eq)]
pub struct Contract {
    pub id: String,
    pub name: String,
    pub facets: Vec<ContractFacet>,
}

/// A concrete representation of a contract.
#[derive(Debug, Clone, PartialEq, Eq)]
pub struct Representation {
    pub id: String,
    pub contract: String,
    pub source: String,
    pub kind: RepresentationKind,
    pub locator: String,
    pub facets: Vec<ContractFacet>,
}

/// The contract graph that an analysis assembles.
#[derive(Debug, Clone, PartialEq, Eq)]
pub struct ContractGraph {
    pub sources: Vec<SourceRecord>,
    pub observations: Vec<Observation>,
    pub contracts: Vec<Contract>,
    pub representations: Vec<Representation>,
}

/// A representation as observed, before any contract claims it.
#[derive(Debug, Clone, PartialEq, Eq)]
pub struct ObservedRepresentation {
    pub id: String,
    pub source: String,
    pub kind: RepresentationKind,
    pub locator: String,
}

/// A claim that a representation represents a contract facet.
#[derive(Debug, Clone, PartialEq, Eq)]
pub struct AlignmentClaim {
    pub representation: String,
    pub contract: String,
    pub facet: ContractFacet,
    pub state: AlignmentState,
    pub evidence: Vec<String>,
}

#[derive(Debug, Clone, PartialEq, Eq)]
pub struct AlignmentCatalog {
    pub representations: Vec<ObservedRepresentation>,
    pub claims: Vec<AlignmentClaim>,
}

#[derive(Debug, Clone, PartialEq, Eq)]
pub struct AnalysisAssembly {
    pub graph: ContractGraph,
    pub alignments: AlignmentCatalog,
    pub decisions: Vec<AlignmentDecision>,
}

// ---- views ----

pub struct SourceView {
    pub id: Seq<char>,
    pub kind: SourceKind,
    pub locator: Seq<char>,
}

pub struct ObservationView {
    pub id: Seq<char>,
    pub source: Seq<char>,
    pub revision: RevisionView,
    pub locator: Seq<char>,
    pub fact: Seq<char>,
}

pub struct ContractView {
    pub id: Seq<char>,
    pub name: Seq<char>,
    pub facets: Seq<ContractFacet>,
}

pub struct RepresentationView {
    pub id: Seq<char>,
    pub contract: Seq<char>,
    pub source: Seq<char>,
    pub kind: RepresentationKind,
    pub locator: Seq<char>,
    pub facets: Seq<ContractFacet>,
}

pub struct ObservedView {
    pub id: Seq<char>,
    pub source: Seq<char>,
    pub kind: RepresentationKind,
    pub locator: Seq<char>,
}

pub struct ClaimView {
    pub representation: Seq<char>,
    pub contract: Seq<char>,
    pub facet: ContractFacet,
    pub state: AlignmentState,
    pub evidence: Seq<Seq<char>>,
}

pub struct AssemblyView {
    pub sources: Seq<SourceView>,
    pub observations: Seq<ObservationView>,
    pub contracts: Seq<ContractView>,
    pub representations: Seq<RepresentationView>,
    pub observed: Seq<ObservedView>,
    pub claims: Seq<ClaimView>,
    pub decisions: Seq<DecisionView>,
}

impl View for SourceRecord {
    type V = SourceView;

    open spec fn view(&self) -> SourceView {
        SourceView { id: self.id@, kind: self.kind, locator: self.locator@ }
    }
}

impl View for Observation {
    type V = ObservationView;

    open spec fn view(&self) -> ObservationView {
        ObservationView {
            id: self.id@,
            source: self.source@,
            revision: self.revision@,
            locator: self.locator@,
            fact: self.fact@,
        }
    }
}

impl View for Contract {
    type V = ContractView;

    open spec fn view(&self) -> ContractView {
        ContractView { id: self.id@, name: self.name@, facets: self.facets@ }
    }
}

impl View for Representation {
    type V = RepresentationView;

    open spec fn view(&self) -> RepresentationView {
        RepresentationView {
            id: self.id@,
            contract: self.contract@,
            source: self.source@,
            kind: self.kind,
            locator: self.locator@,
            facets: self.facets@,
        }
    }
}

impl View for ObservedRepresentation {
    type V = ObservedView;

    open spec fn view(&self) -> ObservedView {
        ObservedView { id: self.id@, source: self.source@, kind: self.kind, locator: self.locator@ }
    }
}

impl View for AlignmentClaim {
    type V = ClaimView;

    open spec fn view(&self) -> ClaimView {
        ClaimView {
            representation: self.representation@,
            contract: self.contract@,
            facet: self.facet,
            state: self.state,
            evidence: views(self.evidence@),
        }
    }
}

impl View for AnalysisAssembly {
    type V = AssemblyView;

    open spec fn view(&self) -> AssemblyView {
        AssemblyView {
            sources: self.graph.sources@.map_values(|x: SourceRecord| x@),
            observations: self.graph.observations@.map_values(|x: Observation| x@),
            contracts: self.graph.contracts@.map_values(|x: Contract| x@),
            representations: self.graph.representations@.map_values(|x: Representation| x@),
            observed: self.alignments.representations@.map_values(|x: ObservedRepresentation| x@),
            claims: self.alignments.claims@.map_values(|x: AlignmentClaim| x@),
            decisions: decision_views(self.decisions@),
        }
    }
}

// ---- the total order of candidates ----

/// A list of keys, each after a `1` marker, then a final `0`.
pub open spec fn list_body(parts: Seq<Seq<u32>>) -> Seq<u32>
    decreases parts.len(),
{
    if parts.len() == 0 {
        Seq::empty()
    } else {
        list_body(parts.drop_last()) + seq![1u32] + parts.last()
    }
}

pub open spec fn list_key(parts: Seq<Seq<u32>>) -> Seq<u32> {
    list_body(parts).push(0)
}

pub open spec fn facet_key_of(f: ContractFacet) -> Seq<u32> {
    rank_key(facet_rank(f))
}

pub open spec fn mechanism_key_of(m: CandidateMechanism) -> Seq<u32> {
    rank_key(crate::analysis::candidate::mechanism_rank(m))
}

pub open spec fn facet_key_fn() -> spec_fn(ContractFacet) -> Seq<u32> {
    |f: ContractFacet| facet_key_of(f)
}

pub open spec fn mechanism_key_fn() -> spec_fn(CandidateMechanism) -> Seq<u32> {
    |m: CandidateMechanism| mechanism_key_of(m)
}

/// The key of a candidate's closed values: none before any set, sets compared
/// as ascending lists.
pub open spec fn closed_key(v: Option<Set<Seq<char>>>) -> Seq<u32> {
    match v {
        None => seq![1u32],
        Some(st) => seq![2u32] + list_key(ascending_of(st, text_key_fn()).map_values(text_key_fn())),
    }
}

/// The total order of candidates: path, kind, identity, locator, facets, closed
/// values, mechanisms and evidence, sets compared as ascending lists.
pub open spec fn full_key(c: CandidateView) -> Seq<u32> {
    texts_key(c.path) + rank_key(kind_rank(c.kind)) + text_key(c.identity) + text_key(c.locator)
        + list_key(ascending_of(c.facets, key_of::<ContractFacet>()).map_values(facet_key_fn()))
        + closed_key(c.closed_values)
        + list_key(ascending_of(c.mechanisms, key_of::<CandidateMechanism>()).map_values(mechanism_key_fn()))
        + list_key(ascending_of(c.evidence, evidence_key_fn()).map_values(evidence_key_fn()))
}

pub open spec fn full_key_fn() -> spec_fn(CandidateView) -> Seq<u32> {
    |c: CandidateView| full_key(c)
}

/// The candidates in their total order.
pub open spec fn ordered(cs: Seq<CandidateView>) -> Seq<CandidateView> {
    stable_sort_by(cs, full_key_fn())
}

// ---- identifiers ----

/// `format!("{:04}", n)`.
pub open spec fn padded4(n: nat) -> Seq<char> {
    if decimal(n).len() >= 4 {
        decimal(n)
    } else {
        Seq::new((4 - decimal(n).len()) as nat, |i: int| '0') + decimal(n)
    }
}

pub open spec fn observation_id(namespace: Seq<char>, index: int) -> Seq<char> {
    namespace + ".observation."@ + padded4((index + 1) as nat)
}

pub open spec fn observed_id(namespace: Seq<char>, index: int) -> Seq<char> {
    namespace + ".observed."@ + padded4((index + 1) as nat)
}

pub open spec fn contract_id(namespace: Seq<char>, path: Seq<Seq<char>>) -> Seq<char> {
    namespace + "."@ + joined(path, "."@)
}

// ---- provenance ----

/// Some evidence of the candidate lies outside the analysis provenance.
pub open spec fn outside(c: CandidateView, source: Seq<char>, revision: RevisionView) -> bool {
    exists|e: EvidenceView| c.evidence.contains(e) && (e.source != source || e.revision != revision)
}

/// The identity of the first candidate, in input order, with evidence outside
/// the analysis provenance.
pub open spec fn first_outside(cs: Seq<CandidateView>, source: Seq<char>, revision: RevisionView) -> Option<Seq<char>>
    decreases cs.len(),
{
    if cs.len() == 0 {
        None
    } else if outside(cs[0], source, revision) {
        Some(cs[0].identity)
    } else {
        first_outside(cs.drop_first(), source, revision)
    }
}

// ---- promotion ----

/// The positions, below `n`, of the candidates on path `p`.
pub open spec fn positions(s: Seq<CandidateView>, p: Seq<Seq<char>>, n: int) -> Seq<int>
    decreases n,
{
    if n <= 0 || n > s.len() {
        Seq::empty()
    } else if s[n - 1].path == p {
        positions(s, p, n - 1).push(n - 1)
    } else {
        positions(s, p, n - 1)
    }
}

pub open spec fn eligible_source_candidate(c: CandidateView) -> bool {
    &&& c.facets.contains(ContractFacet::Structure)
    &&& c.mechanisms.contains(CandidateMechanism::RustSerializedField)
    &&& c.mechanisms.contains(CandidateMechanism::RustTypeReference)
    &&& c.mechanisms.contains(CandidateMechanism::RustClosedValueSet)
}

pub open spec fn eligible_schema_candidate(c: CandidateView) -> bool {
    &&& c.facets.contains(ContractFacet::Structure)
    &&& c.mechanisms.contains(CandidateMechanism::JsonSchemaProperty)
    &&& c.mechanisms.contains(CandidateMechanism::JsonSchemaClosedValueSet)
}

/// A path whose two candidates are one eligible source and one eligible schema
/// candidate with differing closed value sets: their positions.
pub open spec fn promotion(s: Seq<CandidateView>, p: Seq<Seq<char>>) -> Option<(int, int)> {
    let pos = positions(s, p, s.len() as int);
    if pos.len() != 2 {
        None
    } else {
        let src = if s[pos[0]].kind == RepresentationKind::SourceCode { pos[0] } else { pos[1] };
        let sch = if s[pos[0]].kind == RepresentationKind::SourceCode { pos[1] } else { pos[0] };
        if s[src].kind == RepresentationKind::SourceCode && s[sch].kind == RepresentationKind::Schema
            && eligible_source_candidate(s[src]) && eligible_schema_candidate(s[sch])
            && s[src].closed_values is Some && s[sch].closed_values is Some
            && s[src].closed_values != s[sch].closed_values {
            Some((src, sch))
        } else {
            None
        }
    }
}

/// The representation id of the candidate at position `i` of the order.
pub open spec fn representation_id(s: Seq<CandidateView>, namespace: Seq<char>, i: int) -> Seq<char> {
    match promotion(s, s[i].path) {
        Some((src, sch)) => if i == src {
            contract_id(namespace, s[i].path) + ".implementation"@
        } else if i == sch {
            contract_id(namespace, s[i].path) + ".schema"@
        } else {
            observed_id(namespace, i)
        },
        None => observed_id(namespace, i),
    }
}

/// Whether the candidate at position `i` of the order is promoted.
pub open spec fn promoted(s: Seq<CandidateView>, i: int) -> bool {
    match promotion(s, s[i].path) {
        Some((src, sch)) => i == src || i == sch,
        None => false,
    }
}

/// The evidence of the promoted candidates among the first `n` of the order.
pub open spec fn promoted_evidence(s: Seq<CandidateView>, n: int) -> Set<EvidenceView>
    decreases n,
{
    if n <= 0 || n > s.len() {
        Set::empty()
    } else if promoted(s, n - 1) {
        promoted_evidence(s, n - 1) + s[n - 1].evidence
    } else {
        promoted_evidence(s, n - 1)
    }
}

/// The contracts of the first `k` paths, in path order.
pub open spec fn contracts_upto(s: Seq<CandidateView>, ps: Seq<Seq<Seq<char>>>, namespace: Seq<char>, k: int) -> Seq<ContractView>
    decreases k,
{
    if k <= 0 || k > ps.len() {
        Seq::empty()
    } else if promotion(s, ps[k - 1]) is Some {
        contracts_upto(s, ps, namespace, k - 1).push(
            ContractView {
                id: contract_id(namespace, ps[k - 1]),
                name: joined(ps[k - 1], "."@),
                facets: seq![ContractFacet::Structure],
            },
        )
    } else {
        contracts_upto(s, ps, namespace, k - 1)
    }
}

/// The representations of the first `k` paths, in path order.
pub open spec fn representations_upto(
    s: Seq<CandidateView>,
    ps: Seq<Seq<Seq<char>>>,
    namespace: Seq<char>,
    source: Seq<char>,
    k: int,
) -> Seq<RepresentationView>
    decreases k,
{
    if k <= 0 || k > ps.len() {
        Seq::empty()
    } else {
        match promotion(s, ps[k - 1]) {
            Some((src, sch)) => {
                let cid = contract_id(namespace, ps[k - 1]);
                representations_upto(s, ps, namespace, source, k - 1).push(
                    RepresentationView {
                        id: cid + ".implementation"@,
                        contract: cid,
                        source,
                        kind: s[src].kind,
                        locator: s[src].locator,
                        facets: seq![ContractFacet::Structure],
                    },
                ).push(
                    RepresentationView {
                        id: cid + ".schema"@,
                        contract: cid,
                        source,
                        kind: s[sch].kind,
                        locator: s[sch].locator,
                        facets: seq![ContractFacet::Structure],
                    },
                )
            },
            None => representations_upto(s, ps, namespace, source, k - 1),
        }
    }
}

/// The observation ids of a candidate's evidence, in evidence order.
pub open spec fn evidence_ids(c: CandidateView, all: Seq<EvidenceView>, namespace: Seq<char>) -> Seq<Seq<char>> {
    ascending_of(c.evidence, evidence_key_fn()).map_values(|e: EvidenceView| observation_id(namespace, all.index_of(e)))
}

/// The claims of the first `n` candidates of the order.
pub open spec fn claims_upto(s: Seq<CandidateView>, all: Seq<EvidenceView>, namespace: Seq<char>, n: int) -> Seq<ClaimView>
    decreases n,
{
    if n <= 0 || n > s.len() {
        Seq::empty()
    } else if promoted(s, n - 1) {
        claims_upto(s, all, namespace, n - 1).push(
            ClaimView {
                representation: representation_id(s, namespace, n - 1),
                contract: contract_id(namespace, s[n - 1].path),
                facet: ContractFacet::Structure,
                state: AlignmentState::Confirmed,
                evidence: evidence_ids(s[n - 1], all, namespace),
            },
        )
    } else {
        claims_upto(s, all, namespace, n - 1)
    }
}

pub open spec fn contract_order(c: ContractView) -> Seq<u32> {
    text_key(c.id)
}

pub open spec fn contract_order_fn() -> spec_fn(ContractView) -> Seq<u32> {
    |c: ContractView| contract_order(c)
}

pub open spec fn representation_order_fn() -> spec_fn(RepresentationView) -> Seq<u32> {
    |r: RepresentationView| representation_order(r)
}

pub open spec fn observed_order_fn() -> spec_fn(ObservedView) -> Seq<u32> {
    |r: ObservedView| observed_order(r)
}

pub open spec fn claim_order_fn() -> spec_fn(ClaimView) -> Seq<u32> {
    |c: ClaimView| claim_order(c)
}

pub open spec fn observation_of(all: Seq<EvidenceView>, namespace: Seq<char>, i: int) -> ObservationView {
    ObservationView {
        id: observation_id(namespace, i),
        source: all[i].source,
        revision: all[i].revision,
        locator: all[i].locator,
        fact: all[i].fact,
    }
}

pub open spec fn observed_of(s: Seq<CandidateView>, namespace: Seq<char>, source: Seq<char>, i: int) -> ObservedView {
    ObservedView { id: representation_id(s, namespace, i), source, kind: s[i].kind, locator: s[i].locator }
}

pub open spec fn representation_order(r: RepresentationView) -> Seq<u32> {
    text_key(r.id)
}

pub open spec fn observed_order(r: ObservedView) -> Seq<u32> {
    text_key(r.id)
}

pub open spec fn state_rank(s: AlignmentState) -> u32 {
    match s {
        AlignmentState::Confirmed => 0,
        AlignmentState::Rejected => 1,
        AlignmentState::Unresolved => 2,
    }
}

pub open spec fn claim_order(c: ClaimView) -> Seq<u32> {
    text_key(c.representation) + text_key(c.contract) + rank_key(facet_rank(c.facet)) + rank_key(state_rank(c.state))
}

/// The assembly of a list of candidates under an analysis context.
pub open spec fn assembly(
    repository: Seq<char>,
    source: Seq<char>,
    namespace: Seq<char>,
    revision: RevisionView,
    cs: Seq<CandidateView>,
) -> Result<AssemblyView, AnalysisErrorView> {
    match first_outside(cs, source, revision) {
        Some(id) => Err(
            AnalysisErrorView::InvalidCandidate("candidate "@ + id + " has evidence outside explicit analysis provenance"@),
        ),
        None => match alignment(cs) {
            Err(e) => Err(e),
            Ok(ds) => {
            let s = ordered(cs);
            let all = ascending_of(promoted_evidence(s, s.len() as int), evidence_key_fn());
            let ps = aligned_paths(cs);
            Ok(
                AssemblyView {
                    sources: seq![SourceView { id: source, kind: SourceKind::Repository, locator: "github:"@ + repository }],
                    observations: Seq::new(all.len(), |i: int| observation_of(all, namespace, i)),
                    contracts: stable_sort_by(contracts_upto(s, ps, namespace, ps.len() as int), contract_order_fn()),
                    representations: stable_sort_by(
                        representations_upto(s, ps, namespace, source, ps.len() as int),
                        representation_order_fn(),
                    ),
                    observed: stable_sort_by(
                        Seq::new(s.len(), |i: int| observed_of(s, namespace, source, i)),
                        observed_order_fn(),
                    ),
                    claims: stable_sort_by(claims_upto(s, all, namespace, s.len() as int), claim_order_fn()),
                    decisions: ds,
                },
            )
            },
        },
    }
}

// ---- executable parts ----

/// The full key of a well-formed candidate.
fn full_key_exec(c: &RepresentationCandidate) -> (k: Vec<u32>)
    requires
        c.wf(),
    ensures
        k@ == full_key(c@),
{
    let mut k: Vec<u32> = Vec::new();
    push_texts_key(&mut k, c.semantic_path.segments());
    push_rank_key(&mut k, kind_rank_of(c.kind));
    push_text_key(&mut k, c.qualified_local_identity.as_str());
    push_text_key(&mut k, c.locator.as_str());
    let ghost prefix = k@;
    // facets
    let mut i: usize = 0;
    while i < c.facets.len()
        invariant
            i <= c.facets.len(),
            k@ == prefix + list_body(c.facets@.take(i as int).map_values(facet_key_fn())),
        decreases c.facets.len() - i,
    {
        k.push(1);
        push_rank_key(&mut k, crate::model::facet_rank_of(c.facets[i]));
        assert(c.facets@.take(i + 1).map_values(facet_key_fn()).drop_last() =~= c.facets@.take(i as int).map_values(facet_key_fn()));
        assert(k@ =~= prefix + list_body(c.facets@.take(i + 1).map_values(facet_key_fn())));
        i = i + 1;
    }
    k.push(0);
    proof {
        assert(c.facets@.take(c.facets.len() as int) =~= c.facets@);
        lemma_ascending_unique(c.facets@, ascending_of(c@.facets, key_of::<ContractFacet>()), key_of::<ContractFacet>());
    }
    let ghost after_facets = k@;
    assert(after_facets =~= prefix + list_key(ascending_of(c@.facets, key_of::<ContractFacet>()).map_values(facet_key_fn())));
    // closed values
    match &c.closed_values {
        None => {
            k.push(1);
        },
        Some(v) => {
            k.push(2);
            let ghost p2 = k@;
            let mut i: usize = 0;
            while i < v.len()
                invariant
                    i <= v.len(),
                    k@ == p2 + list_body(views(v@).take(i as int).map_values(text_key_fn())),
                decreases v.len() - i,
            {
                k.push(1);
                push_text_key(&mut k, v[i].as_str());
                assert(views(v@).take(i + 1).map_values(text_key_fn()).drop_last() =~= views(v@).take(i as int).map_values(text_key_fn()));
                assert(k@ =~= p2 + list_body(views(v@).take(i + 1).map_values(text_key_fn())));
                i = i + 1;
            }
            k.push(0);
            proof {
                assert(views(v@).take(v.len() as int) =~= views(v@));
                lemma_ascending_unique(views(v@), ascending_of(views(v@).to_set(), text_key_fn()), text_key_fn());
            }
        },
    }
    let ghost after_closed = k@;
    assert(after_closed =~= after_facets + closed_key(c@.closed_values));
    // mechanisms
    let mut i: usize = 0;
    while i < c.mechanisms.len()
        invariant
            i <= c.mechanisms.len(),
            k@ == after_closed + list_body(c.mechanisms@.take(i as int).map_values(mechanism_key_fn())),
        decreases c.mechanisms.len() - i,
    {
        k.push(1);
        push_rank_key(&mut k, crate::analysis::candidate::mechanism_rank_of(c.mechanisms[i]));
        assert(c.mechanisms@.take(i + 1).map_values(mechanism_key_fn()).drop_last() =~= c.mechanisms@.take(i as int).map_values(mechanism_key_fn()));
        assert(k@ =~= after_closed + list_body(c.mechanisms@.take(i + 1).map_values(mechanism_key_fn())));
        i = i + 1;
    }
    k.push(0);
    proof {
        assert(c.mechanisms@.take(c.mechanisms.len() as int) =~= c.mechanisms@);
        lemma_ascending_unique(c.mechanisms@, ascending_of(c@.mechanisms, key_of::<CandidateMechanism>()), key_of::<CandidateMechanism>());
    }
    let ghost after_mechanisms = k@;
    // evidence
    let ghost ev = evidence_views(c.evidence@);
    let mut i: usize = 0;
    while i < c.evidence.len()
        invariant
            i <= c.evidence.len(),
            ev == evidence_views(c.evidence@),
            k@ == after_mechanisms + list_body(ev.take(i as int).map_values(evidence_key_fn())),
        decreases c.evidence.len() - i,
    {
        let ghost before = k@;
        k.push(1);
        let e = &c.evidence[i];
        push_text_key(&mut k, e.source.as_str());
        crate::model::push_revision_key(&mut k, &e.revision);
        push_text_key(&mut k, e.locator.as_str());
        push_text_key(&mut k, e.fact.as_str());
        assert(ev[i as int] == e@);
        assert(k@ =~= before + seq![1u32] + evidence_key(e@));
        assert(ev.take(i + 1).map_values(evidence_key_fn()).drop_last() =~= ev.take(i as int).map_values(evidence_key_fn()));
        assert(k@ =~= after_mechanisms + list_body(ev.take(i + 1).map_values(evidence_key_fn())));
        i = i + 1;
    }
    k.push(0);
    proof {
        assert(ev.take(c.evidence.len() as int) =~= ev);
        lemma_ascending_unique(ev, ascending_of(c@.evidence, evidence_key_fn()), evidence_key_fn());
        assert(k@ =~= full_key(c@));
    }
    k
}

/// A well-formed candidate ordered by its full key.
struct Ordered {
    candidate: RepresentationCandidate,
}

impl Ordered {
    #[verifier::type_invariant]
    spec fn inv(self) -> bool {
        self.candidate.wf()
    }
}

impl SortKey for Ordered {
    closed spec fn sort_key(&self) -> Seq<u32> {
        full_key(self.candidate@)
    }

    fn sort_key_exec(&self) -> (k: Vec<u32>) {
        proof {
            use_type_invariant(self);
        }
        full_key_exec(&self.candidate)
    }
}

spec fn ordered_view_fn() -> spec_fn(Ordered) -> CandidateView {
    |o: Ordered| o.candidate@
}

/// Copies of the candidates in their total order.
fn order_candidates(candidates: &[RepresentationCandidate]) -> (r: Vec<RepresentationCandidate>)
    requires
        all_wf(candidates@),
    ensures
        all_wf(r@),
        candidate_views(r@) == ordered(candidate_views(candidates@)),
{
    let mut wrapped: Vec<Ordered> = Vec::new();
    let mut i: usize = 0;
    while i < candidates.len()
        invariant
            i <= candidates.len(),
            all_wf(candidates@),
            wrapped@.len() == i,
            forall|k: int| 0 <= k < i ==> (#[trigger] wrapped@[k]).candidate@ == candidates@[k]@,
        decreases candidates.len() - i,
    {
        let c = clone_candidate(&candidates[i]);
        wrapped.push(Ordered { candidate: c });
        i = i + 1;
    }
    let ghost before = wrapped@;
    assert(before.map_values(ordered_view_fn()) =~= candidate_views(candidates@));
    let sorted = sort_by_key(wrapped);
    proof {
        lemma_stable_sort_map(before, key_of::<Ordered>(), ordered_view_fn(), full_key_fn());
    }
    let ghost sorted_views = sorted@.map_values(ordered_view_fn());
    let ghost sorted_seq = sorted@;
    let mut out: Vec<RepresentationCandidate> = Vec::new();
    let mut rest = sorted;
    let ghost mut done: int = 0;
    while rest.len() > 0
        invariant
            0 <= done <= sorted_seq.len(),
            sorted_views == sorted_seq.map_values(ordered_view_fn()),
            rest@ == sorted_seq.skip(done),
            all_wf(out@),
            candidate_views(out@) == sorted_views.take(done),
        decreases rest.len(),
    {
        let o = rest.remove(0);
        proof {
            use_type_invariant(&o);
            assert(o == sorted_seq[done]);
            assert(rest@ =~= sorted_seq.skip(done + 1));
        }
        let Ordered { candidate } = o;
        let ghost ob = out@;
        out.push(candidate);
        proof {
            assert(sorted_views[done] == candidate@);
            assert(candidate_views(out@) =~= candidate_views(ob).push(candidate@));
            assert(sorted_views.take(done + 1) =~= sorted_views.take(done).push(sorted_views[done]));
            done = done + 1;
        }
    }
    assert(sorted_views.take(done) =~= sorted_views);
    out
}

/// Appends `format!("{:04}", n)`.
fn push_padded4(out: &mut String, n: usize)
    ensures
        final(out)@ == old(out)@ + padded4(n as nat),
{
    let mut digits = String::new();
    push_decimal(&mut digits, n);
    assert(digits@ == decimal(n as nat));
    let len = digits.as_str().unicode_len();
    let ghost start = out@;
    if len < 4 {
        let mut z: usize = 0;
        while z < 4 - len
            invariant
                z <= 4 - len,
                len < 4,
                len == decimal(n as nat).len(),
                out@ == start + Seq::new(z as nat, |i: int| '0'),
            decreases 4 - len - z,
        {
            push_char(out, '0');
            assert(out@ =~= start + Seq::new((z + 1) as nat, |i: int| '0'));
            z = z + 1;
        }
    }
    push_str(out, digits.as_str());
    assert(out@ =~= start + padded4(n as nat));
}

fn observation_id_exec(namespace: &str, index: usize) -> (r: String)
    requires
        index < usize::MAX,
    ensures
        r@ == observation_id(namespace@, index as int),
{
    let mut r = cat2(namespace, ".observation.");
    push_padded4(&mut r, index + 1);
    r
}

fn contract_id_exec(namespace: &str, path: &SemanticPath) -> (r: String)
    ensures
        r@ == contract_id(namespace@, path@),
{
    let dotted = path.dotted();
    cat3(namespace, ".", dotted.as_str())
}

/// The positions of the candidates on a path and whether the path is promoted.
fn promotion_exec(s: &Vec<RepresentationCandidate>, p: &SemanticPath) -> (r: Option<(usize, usize)>)
    requires
        all_wf(s@),
    ensures
        match r {
            Some((a, b)) => promotion(candidate_views(s@), p@) == Some((a as int, b as int)) && a < s@.len() && b < s@.len(),
            None => promotion(candidate_views(s@), p@) is None,
        },
{
    let ghost sv = candidate_views(s@);
    let mut pos: Vec<usize> = Vec::new();
    let mut i: usize = 0;
    while i < s.len()
        invariant
            i <= s.len(),
            sv == candidate_views(s@),
            pos@.len() == positions(sv, p@, i as int).len(),
            forall|k: int| 0 <= k < pos@.len() ==> (#[trigger] pos@[k]) as int == positions(sv, p@, i as int)[k] && pos@[k] < i,
        decreases s.len() - i,
    {
        assert(sv[i as int] == s@[i as int]@);
        if s[i].semantic_path.same_as(p) {
            pos.push(i);
        }
        i = i + 1;
    }
    let ghost ps = positions(sv, p@, sv.len() as int);
    if pos.len() != 2 {
        return None;
    }
    let (src, sch) = if s[pos[0]].kind == RepresentationKind::SourceCode {
        (pos[0], pos[1])
    } else {
        (pos[1], pos[0])
    };
    assert(sv[src as int] == s@[src as int]@);
    assert(sv[sch as int] == s@[sch as int]@);
    if s[src].kind != RepresentationKind::SourceCode || s[sch].kind != RepresentationKind::Schema {
        return None;
    }
    let a = &s[src];
    let b = &s[sch];
    let eligible = crate::analysis::alignment::facets_hold(a, ContractFacet::Structure)
        && crate::analysis::alignment::mechanisms_hold(a, CandidateMechanism::RustSerializedField)
        && crate::analysis::alignment::mechanisms_hold(a, CandidateMechanism::RustTypeReference)
        && crate::analysis::alignment::mechanisms_hold(a, CandidateMechanism::RustClosedValueSet)
        && crate::analysis::alignment::facets_hold(b, ContractFacet::Structure)
        && crate::analysis::alignment::mechanisms_hold(b, CandidateMechanism::JsonSchemaProperty)
        && crate::analysis::alignment::mechanisms_hold(b, CandidateMechanism::JsonSchemaClosedValueSet);
    if !eligible {
        return None;
    }
    match (&a.closed_values, &b.closed_values) {
        (Some(x), Some(y)) => {
            proof {
                assert(a.wf() && b.wf());
                if views(x@).to_set() == views(y@).to_set() {
                    lemma_ascending_unique(views(x@), views(y@), text_key_fn());
                }
            }
            if texts_eq(x.as_slice(), y.as_slice()) {
                None
            } else {
                Some((src, sch))
            }
        },
        _ => None,
    }
}

fn representation_id_exec(s: &Vec<RepresentationCandidate>, namespace: &str, i: usize) -> (r: String)
    requires
        all_wf(s@),
        i < s@.len(),
    ensures
        r@ == representation_id(candidate_views(s@), namespace@, i as int),
{
    assert(candidate_views(s@)[i as int] == s@[i as int]@);
    let n = s.len();
    assert(i < n);
    match promotion_exec(s, &s[i].semantic_path) {
        Some((a, b)) => {
            if i == a {
                let mut r = contract_id_exec(namespace, &s[i].semantic_path);
                push_str(&mut r, ".implementation");
                r
            } else if i == b {
                let mut r = contract_id_exec(namespace, &s[i].semantic_path);
                push_str(&mut r, ".schema");
                r
            } else {
                let mut r = cat2(namespace, ".observed.");
                push_padded4(&mut r, i + 1);
                r
            }
        },
        None => {
            let mut r = cat2(namespace, ".observed.");
            push_padded4(&mut r, i + 1);
            r
        },
    }
}

impl SortKey for Contract {
    open spec fn sort_key(&self) -> Seq<u32> {
        contract_order(self@)
    }

    fn sort_key_exec(&self) -> (k: Vec<u32>) {
        let mut k: Vec<u32> = Vec::new();
        push_text_key(&mut k, self.id.as_str());
        k
    }
}

impl SortKey for Representation {
    open spec fn sort_key(&self) -> Seq<u32> {
        representation_order(self@)
    }

    fn sort_key_exec(&self) -> (k: Vec<u32>) {
        let mut k: Vec<u32> = Vec::new();
        push_text_key(&mut k, self.id.as_str());
        k
    }
}

impl SortKey for ObservedRepresentation {
    open spec fn sort_key(&self) -> Seq<u32> {
        observed_order(self@)
    }

    fn sort_key_exec(&self) -> (k: Vec<u32>) {
        let mut k: Vec<u32> = Vec::new();
        push_text_key(&mut k, self.id.as_str());
        k
    }
}

fn state_rank_of(s: AlignmentState) -> (r: u32)
    ensures
        r == state_rank(s),
{
    match s {
        AlignmentState::Confirmed => 0,
        AlignmentState::Rejected => 1,
        AlignmentState::Unresolved => 2,
    }
}

impl SortKey for AlignmentClaim {
    open spec fn sort_key(&self) -> Seq<u32> {
        claim_order(self@)
    }

    fn sort_key_exec(&self) -> (k: Vec<u32>) {
        let mut k: Vec<u32> = Vec::new();
        push_text_key(&mut k, self.representation.as_str());
        push_text_key(&mut k, self.contract.as_str());
        push_rank_key(&mut k, crate::model::facet_rank_of(self.facet));
        push_rank_key(&mut k, state_rank_of(self.state));
        assert(k@ =~= claim_order(self@));
        k
    }
}

/// The evidence of a promoted candidate lies inside the promoted evidence.
proof fn lemma_promoted_evidence_holds(s: Seq<CandidateView>, i: int, n: int)
    requires
        0 <= i < n <= s.len(),
        promoted(s, i),
    ensures
        s[i].evidence.subset_of(promoted_evidence(s, n)),
    decreases n,
{
    if i < n - 1 {
        lemma_promoted_evidence_holds(s, i, n - 1);
    }
}

/// Whether the candidate at position `i` of the order is promoted.
fn promoted_exec(s: &Vec<RepresentationCandidate>, i: usize) -> (r: bool)
    requires
        all_wf(s@),
        i < s@.len(),
    ensures
        r == promoted(candidate_views(s@), i as int),
{
    assert(candidate_views(s@)[i as int] == s@[i as int]@);
    match promotion_exec(s, &s[i].semantic_path) {
        Some((a, b)) => i == a || i == b,
        None => false,
    }
}

/// The observation ids of a candidate's evidence.
fn evidence_ids_exec(c: &RepresentationCandidate, all: &Vec<CandidateEvidence>, namespace: &str) -> (r: Vec<String>)
    requires
        c.wf(),
        ascending_by(evidence_views(all@), evidence_key_fn()),
        c@.evidence.subset_of(evidence_views(all@).to_set()),
    ensures
        views(r@) == evidence_ids(c@, evidence_views(all@), namespace@),
{
    let ghost av = evidence_views(all@);
    let ghost cv = evidence_views(c.evidence@);
    proof {
        lemma_ascending_unique(cv, ascending_of(c@.evidence, evidence_key_fn()), evidence_key_fn());
    }
    let mut r: Vec<String> = Vec::new();
    let mut t: usize = 0;
    while t < c.evidence.len()
        invariant
            t <= c.evidence.len(),
            av == evidence_views(all@),
            cv == evidence_views(c.evidence@),
            cv == ascending_of(c@.evidence, evidence_key_fn()),
            ascending_by(av, evidence_key_fn()),
            c@.evidence.subset_of(av.to_set()),
            r@.len() == t,
            forall|q: int| 0 <= q < t ==> (#[trigger] r@[q])@ == observation_id(namespace@, av.index_of(cv[q])),
        decreases c.evidence.len() - t,
    {
        let e = &c.evidence[t];
        assert(cv[t as int] == e@);
        assert(cv.contains(e@));
        assert(av.to_set().contains(e@));
        let mut j: usize = 0;
        while j < all.len() && !crate::analysis::candidate::evidence_eq(&all[j], e)
            invariant
                j <= all.len(),
                av == evidence_views(all@),
                forall|q: int| 0 <= q < j ==> av[q] != e@,
            decreases all.len() - j,
        {
            j = j + 1;
        }
        proof {
            if j == all.len() {
                let q = choose|q: int| 0 <= q < av.len() && av[q] == e@;
                assert(false);
            }
            assert(av[j as int] == e@);
            let q = av.index_of(e@);
            assert(0 <= q < av.len() && av[q] == e@);
            if q != j {
                if q < j {
                    assert(key_lt(evidence_key_fn()(av[q]), evidence_key_fn()(av[j as int])));
                } else {
                    assert(key_lt(evidence_key_fn()(av[j as int]), evidence_key_fn()(av[q])));
                }
                crate::order::lemma_key_lt_irreflexive(evidence_key(e@));
            }
        }
        r.push(observation_id_exec(namespace, j));
        t = t + 1;
    }
    assert(views(r@) =~= evidence_ids(c@, av, namespace@));
    r
}

/// Assembles well-formed candidates.
#[verifier::rlimit(40)]
fn assemble_ordered(context: &AnalysisSourceContext, candidates: &[RepresentationCandidate]) -> (r: Result<
    AnalysisAssembly,
    AnalysisError,
>)
    requires
        all_wf(candidates@),
    ensures
        match assembly(
            context.repository@,
            context.source@,
            context.namespace@,
            context.revision@,
            candidate_views(candidates@),
        ) {
            Ok(a) => r matches Ok(x) && x@ == a,
            Err(e) => r matches Err(x) && x@ == e,
        },
{
    let ghost cs = candidate_views(candidates@);
    // provenance
    let mut i: usize = 0;
    assert(cs.skip(0) =~= cs);
    while i < candidates.len()
        invariant
            i <= candidates.len(),
            cs == candidate_views(candidates@),
            first_outside(cs, context.source@, context.revision@) == first_outside(cs.skip(i as int), context.source@, context.revision@),
        decreases candidates.len() - i,
    {
        let c = &candidates[i];
        assert(cs.skip(i as int)[0] == c@);
        assert(cs.skip(i as int).drop_first() =~= cs.skip(i + 1));
        let ghost ev = evidence_views(c.evidence@);
        let mut t: usize = 0;
        while t < c.evidence.len()
            invariant
                t <= c.evidence.len(),
                ev == evidence_views(c.evidence@),
                cs == candidate_views(candidates@),
                cs.skip(i as int)[0] == c@,
                i < cs.len(),
                first_outside(cs, context.source@, context.revision@) == first_outside(cs.skip(i as int), context.source@, context.revision@),
                forall|q: int| 0 <= q < t ==> (#[trigger] ev[q]).source == context.source@ && ev[q].revision == context.revision@,
            decreases c.evidence.len() - t,
        {
            let e = &c.evidence[t];
            assert(ev[t as int] == e@);
            if !text_eq(e.source.as_str(), context.source.as_str()) || !revision_eq(&e.revision, &context.revision) {
                assert(ev.contains(e@));
                assert(c@.evidence.contains(e@));
                assert(e@.source != context.source@ || e@.revision != context.revision@);
                assert(outside(c@, context.source@, context.revision@));
                return Err(AnalysisError::InvalidCandidate(cat3("candidate ", c.qualified_local_identity.as_str(), " has evidence outside explicit analysis provenance")));
            }
            t = t + 1;
        }
        assert(!outside(c@, context.source@, context.revision@)) by {
            assert forall|e: EvidenceView| c@.evidence.contains(e) implies !(e.source != context.source@ || e.revision != context.revision@) by {
                let q = choose|q: int| 0 <= q < ev.len() && ev[q] == e;
            }
        }
        i = i + 1;
    }
    assert(cs.skip(candidates.len() as int).len() == 0);
    assert(first_outside(cs, context.source@, context.revision@) is None);
    // the decisions
    assert forall|i: int| 0 <= i < candidates@.len() implies (#[trigger] candidates@[i]).evidence@.len() > 0 by {
        assert(candidates@[i].wf());
    }
    let decisions = match align_candidates(candidates) {
        Ok(d) => d,
        Err(e) => {
            return Err(e);
        },
    };
    // the order
    let ordered_candidates = order_candidates(candidates);
    let ghost sv = candidate_views(ordered_candidates@);
    proof {
        crate::order::lemma_stable_sort_contains(cs, full_key_fn());
    }
    // contracts and representations
    let paths = distinct_paths(candidates);
    let ghost ps = paths@.map_values(|p: SemanticPath| p@);
    let mut contracts: Vec<Contract> = Vec::new();
    let mut representations: Vec<Representation> = Vec::new();
    let mut k: usize = 0;
    while k < paths.len()
        invariant
            k <= paths.len(),
            ps == paths@.map_values(|p: SemanticPath| p@),
            sv == candidate_views(ordered_candidates@),
            all_wf(ordered_candidates@),
            contracts@.map_values(|x: Contract| x@) == contracts_upto(sv, ps, context.namespace@, k as int),
            representations@.map_values(|x: Representation| x@) == representations_upto(sv, ps, context.namespace@, context.source@, k as int),
        decreases paths.len() - k,
    {
        let p = &paths[k];
        assert(ps[k as int] == p@);
        let ghost cb = contracts@;
        let ghost rb = representations@;
        match promotion_exec(&ordered_candidates, p) {
            Some((a, b)) => {
                assert(sv[a as int] == ordered_candidates@[a as int]@);
                assert(sv[b as int] == ordered_candidates@[b as int]@);
                let cid = contract_id_exec(context.namespace.as_str(), p);
                let contract_facets = vec![ContractFacet::Structure];
                assert(contract_facets@ == seq![ContractFacet::Structure]);
                let impl_facets = vec![ContractFacet::Structure];
                assert(impl_facets@ == seq![ContractFacet::Structure]);
                let schema_facets = vec![ContractFacet::Structure];
                assert(schema_facets@ == seq![ContractFacet::Structure]);
                contracts.push(Contract { id: cid.clone(), name: p.dotted(), facets: contract_facets });
                let mut impl_id = cid.clone();
                push_str(&mut impl_id, ".implementation");
                let mut schema_id = cid.clone();
                push_str(&mut schema_id, ".schema");
                representations.push(Representation {
                    id: impl_id,
                    contract: cid.clone(),
                    source: context.source.clone(),
                    kind: ordered_candidates[a].kind,
                    locator: ordered_candidates[a].locator.clone(),
                    facets: impl_facets,
                });
                representations.push(Representation {
                    id: schema_id,
                    contract: cid,
                    source: context.source.clone(),
                    kind: ordered_candidates[b].kind,
                    locator: ordered_candidates[b].locator.clone(),
                    facets: schema_facets,
                });
                assert(contracts@.map_values(|x: Contract| x@) =~= cb.map_values(|x: Contract| x@).push(contracts@.last()@));
                assert(representations@.map_values(|x: Representation| x@) =~= rb.map_values(|x: Representation| x@).push(
                    representations@[representations@.len() - 2]@,
                ).push(representations@.last()@));
            },
            None => {},
        }
        k = k + 1;
    }
    let ghost cu = contracts@;
    let contracts = sort_by_key(contracts);
    let ghost ru = representations@;
    let representations = sort_by_key(representations);
    proof {
        lemma_stable_sort_map(cu, key_of::<Contract>(), |x: Contract| x@, contract_order_fn());
        lemma_stable_sort_map(ru, key_of::<Representation>(), |x: Representation| x@, representation_order_fn());
    }
    // observations: the evidence of the promoted candidates
    let mut collected: Vec<CandidateEvidence> = Vec::new();
    let mut i: usize = 0;
    while i < ordered_candidates.len()
        invariant
            i <= ordered_candidates.len(),
            sv == candidate_views(ordered_candidates@),
            all_wf(ordered_candidates@),
            evidence_views(collected@).to_set() == promoted_evidence(sv, i as int),
        decreases ordered_candidates.len() - i,
    {
        let c = &ordered_candidates[i];
        assert(sv[i as int] == c@);
        if promoted_exec(&ordered_candidates, i) {
            let ghost eb = evidence_views(collected@);
            let mut t: usize = 0;
            while t < c.evidence.len()
                invariant
                    t <= c.evidence.len(),
                    evidence_views(collected@).to_set() == eb.to_set() + evidence_views(c.evidence@).take(t as int).to_set(),
                decreases c.evidence.len() - t,
            {
                let ghost e0 = evidence_views(collected@);
                collected.push(clone_evidence(&c.evidence[t]));
                proof {
                    assert(evidence_views(collected@) =~= e0.push(c.evidence@[t as int]@));
                    crate::order::lemma_push_to_set(e0, c.evidence@[t as int]@);
                    assert(evidence_views(c.evidence@).take(t + 1) =~= evidence_views(c.evidence@).take(t as int).push(c.evidence@[t as int]@));
                    crate::order::lemma_push_to_set(evidence_views(c.evidence@).take(t as int), c.evidence@[t as int]@);
                    assert(evidence_views(collected@).to_set() =~= eb.to_set() + evidence_views(c.evidence@).take(t + 1).to_set());
                }
                t = t + 1;
            }
            proof {
                assert(evidence_views(c.evidence@).take(c.evidence.len() as int) =~= evidence_views(c.evidence@));
                assert(evidence_views(collected@).to_set() =~= promoted_evidence(sv, i + 1));
            }
        }
        i = i + 1;
    }
    let ghost unsorted = evidence_views(collected@);
    let all = sorted_evidence(collected);
    let ghost av = evidence_views(all@);
    proof {
        lemma_same_members_set(av, unsorted);
        assert forall|a: int, b: int| 0 <= a < b < av.len() implies key_lt(
            evidence_key_fn()(#[trigger] av[a]),
            evidence_key_fn()(#[trigger] av[b]),
        ) by {
            assert(key_lt(all@[a].sort_key(), all@[b].sort_key()));
        }
        lemma_ascending_unique(av, ascending_of(promoted_evidence(sv, sv.len() as int), evidence_key_fn()), evidence_key_fn());
    }
    let mut observations: Vec<Observation> = Vec::new();
    let mut i: usize = 0;
    while i < all.len()
        invariant
            i <= all.len(),
            av == evidence_views(all@),
            observations@.len() == i,
            forall|q: int| 0 <= q < i ==> (#[trigger] observations@[q])@ == observation_of(av, context.namespace@, q),
        decreases all.len() - i,
    {
        let e = &all[i];
        assert(av[i as int] == e@);
        observations.push(Observation {
            id: observation_id_exec(context.namespace.as_str(), i),
            source: e.source.clone(),
            revision: clone_revision(&e.revision),
            locator: e.locator.clone(),
            fact: e.fact.clone(),
        });
        i = i + 1;
    }
    assert(observations@.map_values(|x: Observation| x@) =~= Seq::new(av.len(), |q: int| observation_of(av, context.namespace@, q)));
    // observed representations and claims
    let mut observed: Vec<ObservedRepresentation> = Vec::new();
    let mut claims: Vec<AlignmentClaim> = Vec::new();
    let mut i: usize = 0;
    while i < ordered_candidates.len()
        invariant
            i <= ordered_candidates.len(),
            sv == candidate_views(ordered_candidates@),
            sv == ordered(cs),
            cs == candidate_views(candidates@),
            forall|j: int| 0 <= j < cs.len() ==> cs.contains(#[trigger] ordered(cs)[j]),
            ordered(cs).len() == cs.len(),
            all_wf(ordered_candidates@),
            av == evidence_views(all@),
            av.to_set() == promoted_evidence(sv, sv.len() as int),
            ascending_by(av, evidence_key_fn()),
            observed@.len() == i,
            forall|q: int| 0 <= q < i ==> (#[trigger] observed@[q])@ == observed_of(sv, context.namespace@, context.source@, q),
            claims@.map_values(|x: AlignmentClaim| x@) == claims_upto(sv, av, context.namespace@, i as int),
        decreases ordered_candidates.len() - i,
    {
        let c = &ordered_candidates[i];
        assert(sv[i as int] == c@);
        let id = representation_id_exec(&ordered_candidates, context.namespace.as_str(), i);
        observed.push(ObservedRepresentation {
            id: id.clone(),
            source: context.source.clone(),
            kind: c.kind,
            locator: c.locator.clone(),
        });
        let ghost clb = claims@;
        match promotion_exec(&ordered_candidates, &c.semantic_path) {
            Some((a, b)) => {
                if i == a || i == b {
                    proof {
                        assert(promoted(sv, i as int));
                        lemma_promoted_evidence_holds(sv, i as int, sv.len() as int);
                    }
                    let evidence = evidence_ids_exec(c, &all, context.namespace.as_str());
                    claims.push(AlignmentClaim {
                        representation: id,
                        contract: contract_id_exec(context.namespace.as_str(), &c.semantic_path),
                        facet: ContractFacet::Structure,
                        state: AlignmentState::Confirmed,
                        evidence,
                    });
                    assert(claims@.map_values(|x: AlignmentClaim| x@) =~= clb.map_values(|x: AlignmentClaim| x@).push(claims@.last()@));
                }
            },
            None => {},
        }
        i = i + 1;
    }
    assert(observed@.map_values(|x: ObservedRepresentation| x@) =~= Seq::new(sv.len(), |q: int| observed_of(sv, context.namespace@, context.source@, q)));
    let ghost ou = observed@;
    let observed = sort_by_key(observed);
    let ghost clu = claims@;
    let claims = sort_by_key(claims);
    proof {
        lemma_stable_sort_map(ou, key_of::<ObservedRepresentation>(), |x: ObservedRepresentation| x@, observed_order_fn());
        lemma_stable_sort_map(clu, key_of::<AlignmentClaim>(), |x: AlignmentClaim| x@, claim_order_fn());
    }
    let mut locator = owned("github:");
    push_str(&mut locator, context.repository.as_str());
    let sources = vec![SourceRecord { id: context.source.clone(), kind: SourceKind::Repository, locator }];
    let result = AnalysisAssembly {
        graph: ContractGraph { sources, observations, contracts, representations },
        alignments: AlignmentCatalog { representations: observed, claims },
        decisions,
    };
    assert(result@.sources =~= seq![SourceView { id: context.source@, kind: SourceKind::Repository, locator: "github:"@ + context.repository@ }]);
    Ok(result)
}

/// Assembles a contract graph, an alignment catalog and the alignment decisions
/// from candidates, given in any order and each with its evidence in any order.
pub fn assemble_contract_graph(context: &AnalysisSourceContext, candidates: &[RepresentationCandidate]) -> (r: Result<
    AnalysisAssembly,
    AnalysisError,
>)
    requires
        all_valid(candidates@),
    ensures
        match assembly(
            context.repository@,
            context.source@,
            context.namespace@,
            context.revision@,
            candidate_views(candidates@),
        ) {
            Ok(a) => r matches Ok(x) && x@ == a,
            Err(e) => r matches Err(x) && x@ == e,
        },
{
    let mut normal: Vec<RepresentationCandidate> = Vec::new();
    let mut i: usize = 0;
    while i < candidates.len()
        invariant
            i <= candidates.len(),
            all_valid(candidates@),
            all_wf(normal@),
            candidate_views(normal@) == candidate_views(candidates@).take(i as int),
        decreases candidates.len() - i,
    {
        let ghost before = normal@;
        normal.push(with_sorted_evidence(&candidates[i]));
        proof {
            assert(candidate_views(normal@) =~= candidate_views(before).push(candidates@[i as int]@));
            assert(candidate_views(candidates@).take(i + 1) =~= candidate_views(candidates@).take(i as int).push(
                candidates@[i as int]@,
            ));
        }
        i = i + 1;
    }
    assert(candidate_views(candidates@).take(candidates.len() as int) =~= candidate_views(candidates@));
    assemble_ordered(context, normal.as_slice())
}

} // verus!
