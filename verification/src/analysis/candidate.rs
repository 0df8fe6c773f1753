//! Representation candidates: what one artifact claims about one semantic path.

use vstd::prelude::*;
use crate::analysis::error::AnalysisError;
use crate::model::{
    clone_revision, facet_rank, push_revision_key, revision_key, ContractFacet,
    RepresentationKind, Revision, RevisionView,
};
use crate::order::{
    ascending_by, key_lt, dedup_seq, key_of, lemma_ascending_unique, lemma_same_members_set,
    lemma_sorted_texts_ascending, lemma_stable_sort_map, lemma_strictly_sorted_ascending,
    lemma_text_key_injective, push_rank_key, push_text_key, push_texts_key, rank_key,
    same_members, sort_by_key, sort_unique_by_key, sorted_texts, stable_sort_by,
    strictly_sorted_by_key, text_key, text_key_fn, texts_key, holds_key_of, SortKey,
};
use crate::text::{clone_texts, is_clean, join, joined, owned, text_eq, text_is_clean, views};

verus! {

/// A consumer-facing path such as `profile.debug-info`: one or more clean segments.
#[derive(Debug, Clone, PartialEq, Eq, PartialOrd, Ord, Hash)]
pub struct SemanticPath {
    segments: Vec<String>,
}

impl View for SemanticPath {
    type V = Seq<Seq<char>>;

    closed spec fn view(&self) -> Seq<Seq<char>> {
        views(self.segments@)
    }
}

/// A path is valid when it has a segment and every segment is clean.
pub open spec fn valid_path(s: Seq<Seq<char>>) -> bool {
    s.len() > 0 && forall|i: int| 0 <= i < s.len() ==> is_clean(#[trigger] s[i])
}

/// The first unclean segment, if any.
pub open spec fn first_unclean(s: Seq<Seq<char>>) -> Option<Seq<char>>
    decreases s.len(),
{
    if s.len() == 0 {
        None
    } else if !is_clean(s[0]) {
        Some(s[0])
    } else {
        first_unclean(s.drop_first())
    }
}

proof fn lemma_first_unclean(s: Seq<Seq<char>>)
    ensures
        first_unclean(s) is None <==> forall|i: int| 0 <= i < s.len() ==> is_clean(#[trigger] s[i]),
    decreases s.len(),
{
    if s.len() > 0 {
        lemma_first_unclean(s.drop_first());
        if first_unclean(s) is None {
            assert forall|i: int| 0 <= i < s.len() implies is_clean(#[trigger] s[i]) by {
                if i > 0 {
                    assert(s.drop_first()[i - 1] == s[i]);
                }
            }
        }
        if forall|i: int| 0 <= i < s.len() ==> is_clean(#[trigger] s[i]) {
            assert(is_clean(s[0]));
            assert forall|i: int| 0 <= i < s.drop_first().len() implies is_clean(
                #[trigger] s.drop_first()[i],
            ) by {
                assert(s.drop_first()[i] == s[i + 1]);
            }
        }
    }
}

impl SemanticPath {
    /// Builds a path; an empty list or an empty or untrimmed segment is refused.
    pub fn new(segments: Vec<String>) -> (r: Result<SemanticPath, AnalysisError>)
        ensures
            r is Ok <==> valid_path(views(segments@)),
            r matches Ok(p) ==> p@ == views(segments@),
            segments.len() == 0 ==> (r matches Err(AnalysisError::InvalidSemanticPath(m)) && m@
                == "path must contain at least one segment"@),
            segments.len() > 0 && !valid_path(views(segments@)) ==> (r matches Err(
                AnalysisError::InvalidSemanticPath(m),
            ) && Some(m@) == first_unclean(views(segments@))),
    {
        let ghost s = views(segments@);
        if segments.len() == 0 {
            return Err(
                AnalysisError::InvalidSemanticPath(owned("path must contain at least one segment")),
            );
        }
        let mut i: usize = 0;
        assert(s.skip(0) =~= s);
        while i < segments.len()
            invariant
                i <= segments.len(),
                s == views(segments@),
                forall|k: int| 0 <= k < i ==> is_clean(#[trigger] s[k]),
                first_unclean(s) == first_unclean(s.skip(i as int)),
            decreases segments.len() - i,
        {
            assert(s[i as int] == segments@[i as int]@);
            assert(s.skip(i as int).drop_first() =~= s.skip(i + 1));
            if !text_is_clean(segments[i].as_str()) {
                proof {
                    lemma_first_unclean(s);
                }
                return Err(AnalysisError::InvalidSemanticPath(segments[i].clone()));
            }
            i = i + 1;
        }
        proof {
            lemma_first_unclean(s);
        }
        Ok(SemanticPath { segments })
    }

    pub fn segments(&self) -> (r: &[String])
        ensures
            views(r@) == self@,
    {
        self.segments.as_slice()
    }

    /// The segments joined with `.`.
    pub fn dotted(&self) -> (r: String)
        ensures
            r@ == joined(self@, "."@),
    {
        join(self.segments.as_slice(), ".")
    }

    /// Whether two paths have the same segments.
    pub fn same_as(&self, other: &SemanticPath) -> (r: bool)
        ensures
            r == (self@ == other@),
    {
        texts_eq(self.segments.as_slice(), other.segments.as_slice())
    }

    pub fn duplicate(&self) -> (r: SemanticPath)
        ensures
            r@ == self@,
    {
        SemanticPath { segments: self.segments.clone() }
    }
}

impl SortKey for SemanticPath {
    open spec fn sort_key(&self) -> Seq<u32> {
        texts_key(self@)
    }

    fn sort_key_exec(&self) -> (k: Vec<u32>) {
        let mut k: Vec<u32> = Vec::new();
        push_texts_key(&mut k, self.segments.as_slice());
        k
    }
}

/// The kinds of evidence that justify a candidate.
#[derive(Debug, Clone, Copy, PartialEq, Eq, PartialOrd, Ord, Hash, Structural)]
pub enum CandidateMechanism {
    RustSerializedField,
    RustTypeReference,
    RustClosedValueSet,
    JsonSchemaProperty,
    JsonSchemaReference,
    JsonSchemaClosedValueSet,
    ExplicitProjection,
}

pub open spec fn mechanism_rank(m: CandidateMechanism) -> u32 {
    match m {
        CandidateMechanism::RustSerializedField => 0,
        CandidateMechanism::RustTypeReference => 1,
        CandidateMechanism::RustClosedValueSet => 2,
        CandidateMechanism::JsonSchemaProperty => 3,
        CandidateMechanism::JsonSchemaReference => 4,
        CandidateMechanism::JsonSchemaClosedValueSet => 5,
        CandidateMechanism::ExplicitProjection => 6,
    }
}

pub fn mechanism_rank_of(m: CandidateMechanism) -> (r: u32)
    ensures
        r == mechanism_rank(m),
{
    match m {
        CandidateMechanism::RustSerializedField => 0,
        CandidateMechanism::RustTypeReference => 1,
        CandidateMechanism::RustClosedValueSet => 2,
        CandidateMechanism::JsonSchemaProperty => 3,
        CandidateMechanism::JsonSchemaReference => 4,
        CandidateMechanism::JsonSchemaClosedValueSet => 5,
        CandidateMechanism::ExplicitProjection => 6,
    }
}

impl SortKey for CandidateMechanism {
    open spec fn sort_key(&self) -> Seq<u32> {
        rank_key(mechanism_rank(*self))
    }

    fn sort_key_exec(&self) -> (k: Vec<u32>) {
        let mut k: Vec<u32> = Vec::new();
        push_rank_key(&mut k, mechanism_rank_of(*self));
        k
    }
}

/// One observed fact that supports a candidate.
#[derive(Debug, Clone, PartialEq, Eq)]
pub struct CandidateEvidence {
    pub source: String,
    pub revision: Revision,
    pub locator: String,
    pub fact: String,
}

pub struct EvidenceView {
    pub source: Seq<char>,
    pub revision: RevisionView,
    pub locator: Seq<char>,
    pub fact: Seq<char>,
}

impl View for CandidateEvidence {
    type V = EvidenceView;

    open spec fn view(&self) -> EvidenceView {
        EvidenceView {
            source: self.source@,
            revision: self.revision@,
            locator: self.locator@,
            fact: self.fact@,
        }
    }
}

/// Evidence is ordered by source, revision, locator and fact.
pub open spec fn evidence_key(e: EvidenceView) -> Seq<u32> {
    text_key(e.source) + revision_key(e.revision) + text_key(e.locator) + text_key(e.fact)
}

impl SortKey for CandidateEvidence {
    open spec fn sort_key(&self) -> Seq<u32> {
        evidence_key(self@)
    }

    fn sort_key_exec(&self) -> (k: Vec<u32>) {
        let mut k: Vec<u32> = Vec::new();
        push_text_key(&mut k, self.source.as_str());
        push_revision_key(&mut k, &self.revision);
        push_text_key(&mut k, self.locator.as_str());
        push_text_key(&mut k, self.fact.as_str());
        proof {
            assert(k@ =~= evidence_key(self@));
        }
        k
    }
}

/// Equal evidence keys come from equal evidence.
pub proof fn lemma_evidence_key_injective(a: EvidenceView, b: EvidenceView)
    requires
        evidence_key(a) == evidence_key(b),
    ensures
        a == b,
{
    let ra = revision_key(a.revision) + text_key(a.locator) + text_key(a.fact);
    let rb = revision_key(b.revision) + text_key(b.locator) + text_key(b.fact);
    assert(evidence_key(a) =~= text_key(a.source) + ra);
    assert(evidence_key(b) =~= text_key(b.source) + rb);
    lemma_text_key_injective(a.source, ra, b.source, rb);
    assert(ra[0] == rb[0]);
    let ta = match a.revision {
        RevisionView::Exact(v) => v,
        _ => Seq::empty(),
    };
    let tb = match b.revision {
        RevisionView::Exact(v) => v,
        _ => Seq::empty(),
    };
    let xa = text_key(a.locator) + text_key(a.fact);
    let xb = text_key(b.locator) + text_key(b.fact);
    assert(ra =~= rank_key((ra[0] - 1) as u32) + text_key(ta) + xa) by {
        assert(revision_key(a.revision) =~= rank_key((ra[0] - 1) as u32) + text_key(ta));
    }
    assert(rb =~= rank_key((rb[0] - 1) as u32) + text_key(tb) + xb) by {
        assert(revision_key(b.revision) =~= rank_key((rb[0] - 1) as u32) + text_key(tb));
    }
    assert(text_key(ta) + xa =~= ra.skip(2));
    assert(text_key(tb) + xb =~= rb.skip(2));
    lemma_text_key_injective(ta, xa, tb, xb);
    lemma_text_key_injective(a.locator, text_key(a.fact), b.locator, text_key(b.fact));
    assert(text_key(a.fact) =~= text_key(a.fact) + Seq::<u32>::empty());
    assert(text_key(b.fact) =~= text_key(b.fact) + Seq::<u32>::empty());
    lemma_text_key_injective(a.fact, Seq::empty(), b.fact, Seq::empty());
}

pub open spec fn evidence_views(s: Seq<CandidateEvidence>) -> Seq<EvidenceView> {
    s.map_values(|e: CandidateEvidence| e@)
}

/// Sorts evidence and removes duplicates: the result holds exactly the distinct
/// evidence of the input, in ascending order.
pub fn sorted_evidence(v: Vec<CandidateEvidence>) -> (r: Vec<CandidateEvidence>)
    ensures
        strictly_sorted_by_key(r@),
        same_members(evidence_views(r@), evidence_views(v@)),
{
    let ghost given = v@;
    let r = sort_unique_by_key(v);
    proof {
        let rv = evidence_views(r@);
        let ov = evidence_views(given);
        assert forall|x: EvidenceView| rv.contains(x) <==> ov.contains(x) by {
            if rv.contains(x) {
                let i = choose|i: int| 0 <= i < rv.len() && rv[i] == x;
                assert(given.contains(r@[i]));
                let j = choose|j: int| 0 <= j < given.len() && given[j] == r@[i];
                assert(ov[j] == x);
            }
            if ov.contains(x) {
                let j = choose|j: int| 0 <= j < ov.len() && ov[j] == x;
                assert(holds_key_of(r@, given[j]));
                let i = choose|i: int| 0 <= i < r@.len() && r@[i].sort_key() == given[j].sort_key();
                lemma_evidence_key_injective(r@[i]@, given[j]@);
                assert(rv[i] == x);
            }
        }
    }
    r
}

/// Whether two evidence items are the same.
pub fn evidence_eq(a: &CandidateEvidence, b: &CandidateEvidence) -> (r: bool)
    ensures
        r == (a@ == b@),
{
    text_eq(a.source.as_str(), b.source.as_str()) && crate::model::revision_eq(&a.revision, &b.revision)
        && text_eq(a.locator.as_str(), b.locator.as_str()) && text_eq(a.fact.as_str(), b.fact.as_str())
}

pub fn clone_evidence(e: &CandidateEvidence) -> (r: CandidateEvidence)
    ensures
        r@ == e@,
{
    CandidateEvidence {
        source: e.source.clone(),
        revision: clone_revision(&e.revision),
        locator: e.locator.clone(),
        fact: e.fact.clone(),
    }
}

/// Sorted, duplicate-free facets with the same members as the input.
pub fn sorted_facets(v: Vec<ContractFacet>) -> (r: Vec<ContractFacet>)
    ensures
        strictly_sorted_by_key(r@),
        same_members(r@, v@),
{
    let ghost given = v@;
    let r = sort_unique_by_key(v);
    proof {
        assert forall|x: ContractFacet| r@.contains(x) <==> given.contains(x) by {
            if given.contains(x) {
                let j = choose|j: int| 0 <= j < given.len() && given[j] == x;
                assert(holds_key_of(r@, given[j]));
                let i = choose|i: int| 0 <= i < r@.len() && r@[i].sort_key() == given[j].sort_key();
                assert(r@[i].sort_key()[0] == given[j].sort_key()[0]);
                assert(r@[i] == x);
            }
        }
    }
    r
}

/// Sorted, duplicate-free mechanisms with the same members as the input.
pub fn sorted_mechanisms(v: Vec<CandidateMechanism>) -> (r: Vec<CandidateMechanism>)
    ensures
        strictly_sorted_by_key(r@),
        same_members(r@, v@),
{
    let ghost given = v@;
    let r = sort_unique_by_key(v);
    proof {
        assert forall|x: CandidateMechanism| r@.contains(x) <==> given.contains(x) by {
            if given.contains(x) {
                let j = choose|j: int| 0 <= j < given.len() && given[j] == x;
                assert(holds_key_of(r@, given[j]));
                let i = choose|i: int| 0 <= i < r@.len() && r@[i].sort_key() == given[j].sort_key();
                assert(r@[i].sort_key()[0] == given[j].sort_key()[0]);
                assert(r@[i] == x);
            }
        }
    }
    r
}

/// What one artifact claims about one semantic path, with the evidence for it.
#[derive(Debug, Clone, PartialEq, Eq)]
pub struct RepresentationCandidate {
    pub kind: RepresentationKind,
    pub qualified_local_identity: String,
    pub locator: String,
    pub facets: Vec<ContractFacet>,
    pub semantic_path: SemanticPath,
    pub closed_values: Option<Vec<String>>,
    pub mechanisms: Vec<CandidateMechanism>,
    pub evidence: Vec<CandidateEvidence>,
}

pub open spec fn evidence_problem(e: EvidenceView) -> Option<Seq<char>> {
    if !is_clean(e.locator) {
        Some("evidence locator must be nonempty and trimmed"@)
    } else if !is_clean(e.fact) {
        Some("evidence fact must be nonempty and trimmed"@)
    } else if e.revision matches RevisionView::Exact(v) && !is_clean(v) {
        Some("exact evidence revision must be nonempty and trimmed"@)
    } else {
        None
    }
}

/// The problem of the first evidence item that has one.
pub open spec fn first_evidence_problem(es: Seq<EvidenceView>) -> Option<Seq<char>>
    decreases es.len(),
{
    if es.len() == 0 {
        None
    } else if evidence_problem(es[0]) is Some {
        evidence_problem(es[0])
    } else {
        first_evidence_problem(es.drop_first())
    }
}

pub open spec fn closes_values(m: Seq<CandidateMechanism>) -> bool {
    m.contains(CandidateMechanism::RustClosedValueSet) || m.contains(
        CandidateMechanism::JsonSchemaClosedValueSet,
    )
}

pub open spec fn closed_values_problem(
    values: Option<Seq<Seq<char>>>,
    mechanisms: Seq<CandidateMechanism>,
) -> Option<Seq<char>> {
    match values {
        None => None,
        Some(vs) => if vs.len() == 0 || exists|i: int| 0 <= i < vs.len() && !is_clean(#[trigger] vs[i]) {
            Some("closed values must be nonempty and trimmed"@)
        } else if !closes_values(mechanisms) {
            Some("closed values require a closed-value-set evidence mechanism"@)
        } else {
            None
        },
    }
}

/// The first rule that a candidate's parts break, if any.
pub open spec fn candidate_problem(
    identity: Seq<char>,
    locator: Seq<char>,
    facets: Seq<ContractFacet>,
    closed_values: Option<Seq<Seq<char>>>,
    mechanisms: Seq<CandidateMechanism>,
    evidence: Seq<EvidenceView>,
) -> Option<Seq<char>> {
    if !is_clean(identity) {
        Some("qualified local identity must be nonempty and trimmed"@)
    } else if !is_clean(locator) {
        Some("locator must be nonempty and trimmed"@)
    } else if facets.len() == 0 {
        Some("at least one facet is required"@)
    } else if mechanisms.len() == 0 {
        Some("at least one evidence mechanism is required"@)
    } else if evidence.len() == 0 {
        Some("at least one evidence observation is required"@)
    } else if first_evidence_problem(evidence) is Some {
        first_evidence_problem(evidence)
    } else {
        closed_values_problem(closed_values, mechanisms)
    }
}

pub open spec fn opt_views(v: Option<Vec<String>>) -> Option<Seq<Seq<char>>> {
    match v {
        Some(x) => Some(views(x@)),
        None => None,
    }
}

fn first_problem_of(evidence: &Vec<CandidateEvidence>) -> (r: Option<&'static str>)
    ensures
        match r {
            Some(m) => first_evidence_problem(evidence_views(evidence@)) == Some(m@),
            None => first_evidence_problem(evidence_views(evidence@)) is None,
        },
{
    let ghost all = evidence_views(evidence@);
    let mut i: usize = 0;
    assert(all.skip(0) =~= all);
    while i < evidence.len()
        invariant
            i <= evidence.len(),
            all == evidence_views(evidence@),
            first_evidence_problem(all) == first_evidence_problem(all.skip(i as int)),
        decreases evidence.len() - i,
    {
        let item = &evidence[i];
        assert(all.skip(i as int)[0] == item@);
        assert(all.skip(i as int).drop_first() =~= all.skip(i + 1));
        if !text_is_clean(item.locator.as_str()) {
            return Some("evidence locator must be nonempty and trimmed");
        }
        if !text_is_clean(item.fact.as_str()) {
            return Some("evidence fact must be nonempty and trimmed");
        }
        if let Revision::Exact(revision) = &item.revision {
            if !text_is_clean(revision.as_str()) {
                return Some("exact evidence revision must be nonempty and trimmed");
            }
        }
        i = i + 1;
    }
    assert(all.skip(i as int).len() == 0);
    None
}

fn contains_mechanism(m: &Vec<CandidateMechanism>, x: CandidateMechanism) -> (r: bool)
    ensures
        r == m@.contains(x),
{
    let mut i: usize = 0;
    while i < m.len()
        invariant
            i <= m.len(),
            forall|k: int| 0 <= k < i ==> m@[k] != x,
        decreases m.len() - i,
    {
        if m[i] == x {
            return true;
        }
        i = i + 1;
    }
    false
}

fn all_clean(values: &Vec<String>) -> (r: bool)
    ensures
        r == forall|i: int| 0 <= i < values@.len() ==> is_clean(#[trigger] views(values@)[i]),
{
    let mut i: usize = 0;
    while i < values.len()
        invariant
            i <= values.len(),
            forall|k: int| 0 <= k < i ==> is_clean(#[trigger] views(values@)[k]),
        decreases values.len() - i,
    {
        if !text_is_clean(values[i].as_str()) {
            assert(views(values@)[i as int] == values@[i as int]@);
            return false;
        }
        i = i + 1;
    }
    true
}

/// What a candidate states: its sets as sets, its path and texts by their views.
pub struct CandidateView {
    pub kind: RepresentationKind,
    pub identity: Seq<char>,
    pub locator: Seq<char>,
    pub facets: Set<ContractFacet>,
    pub path: Seq<Seq<char>>,
    pub closed_values: Option<Set<Seq<char>>>,
    pub mechanisms: Set<CandidateMechanism>,
    pub evidence: Set<EvidenceView>,
}

/// The view of a candidate built from the given parts.
pub open spec fn candidate_view_of(
    kind: RepresentationKind,
    identity: Seq<char>,
    locator: Seq<char>,
    facets: Seq<ContractFacet>,
    path: Seq<Seq<char>>,
    closed_values: Option<Seq<Seq<char>>>,
    mechanisms: Seq<CandidateMechanism>,
    evidence: Seq<EvidenceView>,
) -> CandidateView {
    CandidateView {
        kind,
        identity,
        locator,
        facets: facets.to_set(),
        path,
        closed_values: match closed_values {
            Some(v) => Some(v.to_set()),
            None => None,
        },
        mechanisms: mechanisms.to_set(),
        evidence: evidence.to_set(),
    }
}

impl View for RepresentationCandidate {
    type V = CandidateView;

    open spec fn view(&self) -> CandidateView {
        candidate_view_of(
            self.kind,
            self.qualified_local_identity@,
            self.locator@,
            self.facets@,
            self.semantic_path@,
            opt_views(self.closed_values),
            self.mechanisms@,
            evidence_views(self.evidence@),
        )
    }
}

/// The order of evidence.
pub open spec fn evidence_key_fn() -> spec_fn(EvidenceView) -> Seq<u32> {
    |e: EvidenceView| evidence_key(e)
}

/// Candidates are ordered by semantic path, then identity, then locator.
pub open spec fn candidate_key(c: CandidateView) -> Seq<u32> {
    texts_key(c.path) + text_key(c.identity) + text_key(c.locator)
}

pub open spec fn candidate_key_fn() -> spec_fn(CandidateView) -> Seq<u32> {
    |c: CandidateView| candidate_key(c)
}

pub open spec fn candidate_view_fn() -> spec_fn(RepresentationCandidate) -> CandidateView {
    |c: RepresentationCandidate| c@
}

pub open spec fn candidate_views(s: Seq<RepresentationCandidate>) -> Seq<CandidateView> {
    s.map_values(candidate_view_fn())
}

/// All candidates of a list are well formed.
pub open spec fn all_wf(s: Seq<RepresentationCandidate>) -> bool {
    forall|i: int| 0 <= i < s.len() ==> (#[trigger] s[i]).wf()
}

impl SortKey for RepresentationCandidate {
    open spec fn sort_key(&self) -> Seq<u32> {
        candidate_key(self@)
    }

    fn sort_key_exec(&self) -> (k: Vec<u32>) {
        let mut k: Vec<u32> = Vec::new();
        push_texts_key(&mut k, self.semantic_path.segments());
        push_text_key(&mut k, self.qualified_local_identity.as_str());
        push_text_key(&mut k, self.locator.as_str());
        proof {
            assert(k@ =~= candidate_key(self@));
        }
        k
    }
}

pub fn texts_eq(x: &[String], y: &[String]) -> (r: bool)
    ensures
        r == (views(x@) == views(y@)),
{
    if x.len() != y.len() {
        assert(views(x@).len() != views(y@).len());
        return false;
    }
    let mut i: usize = 0;
    while i < x.len()
        invariant
            i <= x.len(),
            x.len() == y.len(),
            forall|k: int| 0 <= k < i ==> x@[k]@ == y@[k]@,
        decreases x.len() - i,
    {
        if !text_eq(x[i].as_str(), y[i].as_str()) {
            assert(views(x@)[i as int] != views(y@)[i as int]);
            return false;
        }
        i = i + 1;
    }
    assert(views(x@) =~= views(y@));
    true
}

fn facets_eq(x: &Vec<ContractFacet>, y: &Vec<ContractFacet>) -> (r: bool)
    ensures
        r == (x@ == y@),
{
    if x.len() != y.len() {
        return false;
    }
    let mut i: usize = 0;
    while i < x.len()
        invariant
            i <= x.len(),
            x.len() == y.len(),
            forall|k: int| 0 <= k < i ==> x@[k] == y@[k],
        decreases x.len() - i,
    {
        if x[i] != y[i] {
            return false;
        }
        i = i + 1;
    }
    assert(x@ =~= y@);
    true
}

fn mechanisms_eq(x: &Vec<CandidateMechanism>, y: &Vec<CandidateMechanism>) -> (r: bool)
    ensures
        r == (x@ == y@),
{
    if x.len() != y.len() {
        return false;
    }
    let mut i: usize = 0;
    while i < x.len()
        invariant
            i <= x.len(),
            x.len() == y.len(),
            forall|k: int| 0 <= k < i ==> x@[k] == y@[k],
        decreases x.len() - i,
    {
        if x[i] != y[i] {
            return false;
        }
        i = i + 1;
    }
    assert(x@ =~= y@);
    true
}

fn evidence_list_eq(x: &Vec<CandidateEvidence>, y: &Vec<CandidateEvidence>) -> (r: bool)
    ensures
        r == (evidence_views(x@) == evidence_views(y@)),
{
    if x.len() != y.len() {
        assert(evidence_views(x@).len() != evidence_views(y@).len());
        return false;
    }
    let mut i: usize = 0;
    while i < x.len()
        invariant
            i <= x.len(),
            x.len() == y.len(),
            forall|k: int| 0 <= k < i ==> x@[k]@ == y@[k]@,
        decreases x.len() - i,
    {
        let a = &x[i];
        let b = &y[i];
        let same = text_eq(a.source.as_str(), b.source.as_str()) && crate::model::revision_eq(
            &a.revision,
            &b.revision,
        ) && text_eq(a.locator.as_str(), b.locator.as_str()) && text_eq(
            a.fact.as_str(),
            b.fact.as_str(),
        );
        if !same {
            assert(evidence_views(x@)[i as int] != evidence_views(y@)[i as int]);
            return false;
        }
        i = i + 1;
    }
    assert(evidence_views(x@) =~= evidence_views(y@));
    true
}

impl RepresentationCandidate {
    /// Its facet, mechanism and closed-value sets are kept ascending, without
    /// repeats, and it holds some evidence, in any order.
    pub open spec fn valid(&self) -> bool {
        &&& ascending_by(self.facets@, key_of::<ContractFacet>())
        &&& ascending_by(self.mechanisms@, key_of::<CandidateMechanism>())
        &&& (self.closed_values matches Some(v) ==> ascending_by(views(v@), text_key_fn()))
        &&& self.evidence@.len() > 0
    }

    /// A valid candidate whose evidence is kept ascending too, without repeats.
    pub open spec fn wf(&self) -> bool {
        &&& self.valid()
        &&& ascending_by(evidence_views(self.evidence@), evidence_key_fn())
    }
}

/// All candidates of a list are valid.
pub open spec fn all_valid(s: Seq<RepresentationCandidate>) -> bool {
    forall|i: int| 0 <= i < s.len() ==> (#[trigger] s[i]).valid()
}

/// The same candidate with its evidence sorted and without repeats.
pub fn with_sorted_evidence(c: &RepresentationCandidate) -> (r: RepresentationCandidate)
    requires
        c.valid(),
    ensures
        r.wf(),
        r@ == c@,
{
    let closed_values = match &c.closed_values {
        Some(v) => Some(clone_texts(v)),
        None => None,
    };
    let ghost given = evidence_views(c.evidence@);
    let evidence = sorted_evidence(clone_evidence_list(&c.evidence));
    let r = RepresentationCandidate {
        kind: c.kind,
        qualified_local_identity: c.qualified_local_identity.clone(),
        locator: c.locator.clone(),
        facets: copy_facets(&c.facets),
        semantic_path: c.semantic_path.duplicate(),
        closed_values,
        mechanisms: copy_mechanisms(&c.mechanisms),
        evidence,
    };
    proof {
        let rv = evidence_views(r.evidence@);
        lemma_same_members_set(rv, given);
        assert(given.contains(given[0]));
        assert(rv.len() > 0);
        assert forall|i: int, j: int| 0 <= i < j < rv.len() implies key_lt(
            evidence_key_fn()(#[trigger] rv[i]),
            evidence_key_fn()(#[trigger] rv[j]),
        ) by {
            assert(key_lt(r.evidence@[i].sort_key(), r.evidence@[j].sort_key()));
        }
        assert(opt_views(r.closed_values) == opt_views(c.closed_values));
    }
    r
}

/// Two well-formed candidates are equal exactly when their views are.
pub fn candidate_eq(a: &RepresentationCandidate, b: &RepresentationCandidate) -> (r: bool)
    requires
        a.wf(),
        b.wf(),
    ensures
        r == (a@ == b@),
{
    proof {
        if a.facets@.to_set() == b.facets@.to_set() {
            lemma_ascending_unique(a.facets@, b.facets@, key_of::<ContractFacet>());
        }
        if a.mechanisms@.to_set() == b.mechanisms@.to_set() {
            lemma_ascending_unique(a.mechanisms@, b.mechanisms@, key_of::<CandidateMechanism>());
        }
        if evidence_views(a.evidence@).to_set() == evidence_views(b.evidence@).to_set() {
            lemma_ascending_unique(evidence_views(a.evidence@), evidence_views(b.evidence@), evidence_key_fn());
        }
        if a.closed_values is Some && b.closed_values is Some {
            let x = a.closed_values->Some_0;
            let y = b.closed_values->Some_0;
            if views(x@).to_set() == views(y@).to_set() {
                lemma_ascending_unique(views(x@), views(y@), text_key_fn());
            }
        }
    }
    if a.kind != b.kind {
        return false;
    }
    if !text_eq(a.qualified_local_identity.as_str(), b.qualified_local_identity.as_str()) {
        return false;
    }
    if !text_eq(a.locator.as_str(), b.locator.as_str()) {
        return false;
    }
    if !facets_eq(&a.facets, &b.facets) {
        return false;
    }
    if !texts_eq(a.semantic_path.segments(), b.semantic_path.segments()) {
        return false;
    }
    let values_same = match (&a.closed_values, &b.closed_values) {
        (Some(x), Some(y)) => texts_eq(x.as_slice(), y.as_slice()),
        (None, None) => true,
        _ => false,
    };
    if !values_same {
        return false;
    }
    if !mechanisms_eq(&a.mechanisms, &b.mechanisms) {
        return false;
    }
    evidence_list_eq(&a.evidence, &b.evidence)
}

/// Removes each candidate that equals the one kept just before it.
pub fn dedup_candidates(v: Vec<RepresentationCandidate>) -> (r: Vec<RepresentationCandidate>)
    requires
        all_wf(v@),
    ensures
        all_wf(r@),
        candidate_views(r@) == dedup_seq(candidate_views(v@)),
{
    let ghost given = v@;
    let mut input = v;
    let mut out: Vec<RepresentationCandidate> = Vec::new();
    let ghost mut done: int = 0;
    while input.len() > 0
        invariant
            0 <= done <= given.len(),
            input@ == given.skip(done),
            all_wf(given),
            all_wf(out@),
            candidate_views(out@) == dedup_seq(candidate_views(given.take(done))),
        decreases input.len(),
    {
        let x = input.remove(0);
        proof {
            assert(x == given[done]);
            assert(input@ =~= given.skip(done + 1));
            assert(candidate_views(given.take(done + 1)).drop_last() =~= candidate_views(given.take(done)));
            assert(candidate_views(given.take(done + 1)).last() == x@);
        }
        let n = out.len();
        if n > 0 && candidate_eq(&out[n - 1], &x) {
            assert(candidate_views(out@).last() == out@[n - 1]@);
        } else {
            let ghost before = out@;
            out.push(x);
            proof {
                assert(candidate_views(out@) =~= candidate_views(before).push(x@));
                if n > 0 {
                    assert(candidate_views(before).last() == before[n - 1]@);
                }
            }
        }
        proof {
            done = done + 1;
        }
    }
    assert(given.take(done) =~= given);
    out
}

/// Sorts candidates by path, identity and locator, keeping the input order among
/// equal keys, then drops each candidate equal to the one before it.
pub fn normalize_candidates(v: Vec<RepresentationCandidate>) -> (r: Vec<RepresentationCandidate>)
    requires
        all_wf(v@),
    ensures
        all_wf(r@),
        candidate_views(r@) == dedup_seq(stable_sort_by(candidate_views(v@), candidate_key_fn())),
{
    let ghost given = v@;
    let sorted = sort_by_key(v);
    proof {
        lemma_stable_sort_map(given, key_of::<RepresentationCandidate>(), candidate_view_fn(), candidate_key_fn());
        assert forall|i: int| 0 <= i < sorted@.len() implies (#[trigger] sorted@[i]).wf() by {
            broadcast use vstd::seq_lib::group_to_multiset_ensures;
            assert(sorted@.contains(sorted@[i]));
            assert(sorted@.to_multiset().count(sorted@[i]) > 0);
            assert(given.to_multiset().count(sorted@[i]) > 0);
            assert(given.contains(sorted@[i]));
        }
    }
    dedup_candidates(sorted)
}

impl RepresentationCandidate {
    /// Validates the parts of a candidate and normalises its sets and evidence.
    pub fn new(
        kind: RepresentationKind,
        qualified_local_identity: String,
        locator: String,
        facets: Vec<ContractFacet>,
        semantic_path: SemanticPath,
        closed_values: Option<Vec<String>>,
        mechanisms: Vec<CandidateMechanism>,
        evidence: Vec<CandidateEvidence>,
    ) -> (r: Result<RepresentationCandidate, AnalysisError>)
        ensures
            r is Ok <==> candidate_problem(
                qualified_local_identity@,
                locator@,
                facets@,
                opt_views(closed_values),
                mechanisms@,
                evidence_views(evidence@),
            ) is None,
            r is Err ==> (r matches Err(AnalysisError::InvalidCandidate(m)) && candidate_problem(
                qualified_local_identity@,
                locator@,
                facets@,
                opt_views(closed_values),
                mechanisms@,
                evidence_views(evidence@),
            ) == Some(m@)),
            r matches Ok(c) ==> c.wf() && c@ == candidate_view_of(
                kind,
                qualified_local_identity@,
                locator@,
                facets@,
                semantic_path@,
                opt_views(closed_values),
                mechanisms@,
                evidence_views(evidence@),
            ),
            r matches Ok(c) ==> {
                &&& c.kind == kind
                &&& c.qualified_local_identity@ == qualified_local_identity@
                &&& c.locator@ == locator@
                &&& c.semantic_path@ == semantic_path@
                &&& strictly_sorted_by_key(c.facets@)
                &&& same_members(c.facets@, facets@)
                &&& strictly_sorted_by_key(c.mechanisms@)
                &&& same_members(c.mechanisms@, mechanisms@)
                &&& strictly_sorted_by_key(c.evidence@)
                &&& same_members(evidence_views(c.evidence@), evidence_views(evidence@))
                &&& (closed_values is None <==> c.closed_values is None)
                &&& (c.closed_values matches Some(w) ==> {
                    &&& strictly_sorted_by_key(w@)
                    &&& same_members(views(w@), views(closed_values->Some_0@))
                })
            },
    {
        let ghost problem = candidate_problem(
            qualified_local_identity@,
            locator@,
            facets@,
            opt_views(closed_values),
            mechanisms@,
            evidence_views(evidence@),
        );
        if !text_is_clean(qualified_local_identity.as_str()) {
            return Err(AnalysisError::InvalidCandidate(owned("qualified local identity must be nonempty and trimmed")));
        }
        if !text_is_clean(locator.as_str()) {
            return Err(AnalysisError::InvalidCandidate(owned("locator must be nonempty and trimmed")));
        }
        if facets.len() == 0 {
            return Err(AnalysisError::InvalidCandidate(owned("at least one facet is required")));
        }
        if mechanisms.len() == 0 {
            return Err(AnalysisError::InvalidCandidate(owned("at least one evidence mechanism is required")));
        }
        if evidence.len() == 0 {
            return Err(AnalysisError::InvalidCandidate(owned("at least one evidence observation is required")));
        }
        if let Some(message) = first_problem_of(&evidence) {
            return Err(AnalysisError::InvalidCandidate(owned(message)));
        }
        let normalized_values = match closed_values {
            Some(values) => {
                if values.len() == 0 || !all_clean(&values) {
                    return Err(AnalysisError::InvalidCandidate(owned("closed values must be nonempty and trimmed")));
                }
                let justified = contains_mechanism(&mechanisms, CandidateMechanism::RustClosedValueSet)
                    || contains_mechanism(&mechanisms, CandidateMechanism::JsonSchemaClosedValueSet);
                if !justified {
                    return Err(AnalysisError::InvalidCandidate(owned("closed values require a closed-value-set evidence mechanism")));
                }
                Some(sorted_texts(values))
            },
            None => None,
        };
        let ghost facets_in = facets@;
        let ghost mechanisms_in = mechanisms@;
        let ghost evidence_in = evidence_views(evidence@);
        let c = RepresentationCandidate {
            kind,
            qualified_local_identity,
            locator,
            facets: sorted_facets(facets),
            semantic_path,
            closed_values: normalized_values,
            mechanisms: sorted_mechanisms(mechanisms),
            evidence: sorted_evidence(evidence),
        };
        proof {
            lemma_strictly_sorted_ascending(c.facets@);
            lemma_strictly_sorted_ascending(c.mechanisms@);
            lemma_same_members_set(c.facets@, facets_in);
            lemma_same_members_set(c.mechanisms@, mechanisms_in);
            lemma_same_members_set(evidence_views(c.evidence@), evidence_in);
            assert(evidence_in.contains(evidence_in[0]));
            assert(evidence_views(c.evidence@).len() > 0);
            assert forall|i: int, j: int| 0 <= i < j < evidence_views(c.evidence@).len() implies key_lt(
                evidence_key_fn()(#[trigger] evidence_views(c.evidence@)[i]),
                evidence_key_fn()(#[trigger] evidence_views(c.evidence@)[j]),
            ) by {
                assert(key_lt(c.evidence@[i].sort_key(), c.evidence@[j].sort_key()));
            }
            if c.closed_values is Some {
                let w = c.closed_values->Some_0;
                lemma_sorted_texts_ascending(w@);
                assert(views(w@) =~= w@.map_values(|s: String| s@));
                lemma_same_members_set(views(w@), views(closed_values->Some_0@));
            }
        }
        Ok(c)
    }
}

fn copy_facets(v: &Vec<ContractFacet>) -> (r: Vec<ContractFacet>)
    ensures
        r@ == v@,
{
    let mut r: Vec<ContractFacet> = Vec::new();
    let mut i: usize = 0;
    while i < v.len()
        invariant
            i <= v.len(),
            r@ == v@.take(i as int),
        decreases v.len() - i,
    {
        r.push(v[i]);
        assert(r@ =~= v@.take(i + 1));
        i = i + 1;
    }
    assert(v@.take(v.len() as int) =~= v@);
    r
}

fn copy_mechanisms(v: &Vec<CandidateMechanism>) -> (r: Vec<CandidateMechanism>)
    ensures
        r@ == v@,
{
    let mut r: Vec<CandidateMechanism> = Vec::new();
    let mut i: usize = 0;
    while i < v.len()
        invariant
            i <= v.len(),
            r@ == v@.take(i as int),
        decreases v.len() - i,
    {
        r.push(v[i]);
        assert(r@ =~= v@.take(i + 1));
        i = i + 1;
    }
    assert(v@.take(v.len() as int) =~= v@);
    r
}

pub fn clone_evidence_list(v: &Vec<CandidateEvidence>) -> (r: Vec<CandidateEvidence>)
    ensures
        evidence_views(r@) == evidence_views(v@),
        r@.len() == v@.len(),
{
    let mut r: Vec<CandidateEvidence> = Vec::new();
    let mut i: usize = 0;
    while i < v.len()
        invariant
            i <= v.len(),
            r@.len() == i,
            forall|k: int| 0 <= k < i ==> (#[trigger] r@[k])@ == v@[k]@,
        decreases v.len() - i,
    {
        r.push(clone_evidence(&v[i]));
        i = i + 1;
    }
    assert(evidence_views(r@) =~= evidence_views(v@));
    r
}

/// A copy of a candidate, field by field.
pub fn clone_candidate(c: &RepresentationCandidate) -> (r: RepresentationCandidate)
    ensures
        r@ == c@,
        c.wf() ==> r.wf(),
        r.evidence@.len() == c.evidence@.len(),
{
    let closed_values = match &c.closed_values {
        Some(v) => Some(clone_texts(v)),
        None => None,
    };
    let r = RepresentationCandidate {
        kind: c.kind,
        qualified_local_identity: c.qualified_local_identity.clone(),
        locator: c.locator.clone(),
        facets: copy_facets(&c.facets),
        semantic_path: c.semantic_path.duplicate(),
        closed_values,
        mechanisms: copy_mechanisms(&c.mechanisms),
        evidence: clone_evidence_list(&c.evidence),
    };
    assert(opt_views(r.closed_values) == opt_views(c.closed_values));
    r
}

} // verus!
