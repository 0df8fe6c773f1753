//! Alignment: what the candidates that claim one semantic path say together.
//!
//! Candidates are grouped by semantic path, in path order. A group of exactly one
//! eligible Rust source candidate and one eligible JSON Schema candidate with the
//! same provenance is confirmed; every other group stays unresolved. A candidate
//! whose evidence mixes sources or revisions stops the alignment.

use vstd::prelude::*;
use crate::analysis::candidate::{
    candidate_views, clone_evidence, evidence_key, evidence_key_fn, evidence_views,
    sorted_evidence, CandidateEvidence, CandidateMechanism, CandidateView, EvidenceView,
    RepresentationCandidate, SemanticPath,
};
use crate::analysis::error::{AnalysisError, AnalysisErrorView};
use crate::model::{
    clone_revision, kind_rank, kind_rank_of, push_revision_key, revision_eq, revision_key,
    AlignmentState, ContractFacet, RepresentationKind, Revision, RevisionView,
};
use crate::order::{
    ascending_by, ascending_of, holds_key_of, key_lt, key_of, lemma_ascending_unique,
    lemma_key_lt_asymmetric, lemma_key_lt_irreflexive, lemma_key_lt_total,
    lemma_key_lt_transitive, lemma_same_members_set, lemma_stable_sort_map,
    lemma_strictly_sorted_ascending, lemma_text_key_injective, lemma_texts_key_injective,
    push_rank_key, push_text_key, rank_key, same_members, sort_by_key, sort_unique_by_key,
    stable_sort_by, strictly_sorted_by_key, text_key, texts_key, texts_key_fn, SortKey,
};
use crate::text::{cat3, text_eq};

verus! {

/// Which representation a candidate is, with the provenance of its evidence.
#[derive(Debug, Clone, PartialEq, Eq)]
pub struct CandidateKey {
    pub source: String,
    pub revision: Revision,
    pub kind: RepresentationKind,
    pub qualified_local_identity: String,
    pub locator: String,
}

pub struct CandidateKeyView {
    pub source: Seq<char>,
    pub revision: RevisionView,
    pub kind: RepresentationKind,
    pub identity: Seq<char>,
    pub locator: Seq<char>,
}

impl View for CandidateKey {
    type V = CandidateKeyView;

    open spec fn view(&self) -> CandidateKeyView {
        CandidateKeyView {
            source: self.source@,
            revision: self.revision@,
            kind: self.kind,
            identity: self.qualified_local_identity@,
            locator: self.locator@,
        }
    }
}

/// Keys are ordered by source, revision, kind, identity and locator.
pub open spec fn key_order(k: CandidateKeyView) -> Seq<u32> {
    text_key(k.source) + revision_key(k.revision) + rank_key(kind_rank(k.kind)) + text_key(k.identity)
        + text_key(k.locator)
}

pub open spec fn key_order_fn() -> spec_fn(CandidateKeyView) -> Seq<u32> {
    |k: CandidateKeyView| key_order(k)
}

impl SortKey for CandidateKey {
    open spec fn sort_key(&self) -> Seq<u32> {
        key_order(self@)
    }

    fn sort_key_exec(&self) -> (k: Vec<u32>) {
        let mut k: Vec<u32> = Vec::new();
        push_text_key(&mut k, self.source.as_str());
        push_revision_key(&mut k, &self.revision);
        push_rank_key(&mut k, kind_rank_of(self.kind));
        push_text_key(&mut k, self.qualified_local_identity.as_str());
        push_text_key(&mut k, self.locator.as_str());
        proof {
            assert(k@ =~= key_order(self@));
        }
        k
    }
}

/// The alignment of one semantic path.
#[derive(Debug, Clone, PartialEq, Eq)]
pub struct AlignmentDecision {
    pub semantic_path: SemanticPath,
    pub candidates: Vec<CandidateKey>,
    pub facet: ContractFacet,
    pub state: AlignmentState,
    pub evidence: Vec<CandidateEvidence>,
}

pub struct DecisionView {
    pub path: Seq<Seq<char>>,
    pub candidates: Seq<CandidateKeyView>,
    pub facet: ContractFacet,
    pub state: AlignmentState,
    pub evidence: Seq<EvidenceView>,
}

pub open spec fn key_views(s: Seq<CandidateKey>) -> Seq<CandidateKeyView> {
    s.map_values(|k: CandidateKey| k@)
}

impl View for AlignmentDecision {
    type V = DecisionView;

    open spec fn view(&self) -> DecisionView {
        DecisionView {
            path: self.semantic_path@,
            candidates: key_views(self.candidates@),
            facet: self.facet,
            state: self.state,
            evidence: evidence_views(self.evidence@),
        }
    }
}

pub open spec fn decision_views(s: Seq<AlignmentDecision>) -> Seq<DecisionView> {
    s.map_values(|d: AlignmentDecision| d@)
}

/// Two evidence items of the candidate disagree on source or revision.
pub open spec fn mixed(c: CandidateView) -> bool {
    exists|a: EvidenceView, b: EvidenceView|
        c.evidence.contains(a) && c.evidence.contains(b) && (a.source != b.source || a.revision != b.revision)
}

/// The source and revision of a candidate's evidence.
pub open spec fn provenance(c: CandidateView) -> (Seq<char>, RevisionView) {
    let e = choose|e: EvidenceView| c.evidence.contains(e);
    (e.source, e.revision)
}

pub open spec fn key_view(c: CandidateView) -> CandidateKeyView {
    CandidateKeyView {
        source: provenance(c).0,
        revision: provenance(c).1,
        kind: c.kind,
        identity: c.identity,
        locator: c.locator,
    }
}

pub open spec fn key_view_fn() -> spec_fn(CandidateView) -> CandidateKeyView {
    |c: CandidateView| key_view(c)
}

pub open spec fn path_of_fn() -> spec_fn(CandidateView) -> Seq<Seq<char>> {
    |c: CandidateView| c.path
}

/// The distinct semantic paths of the candidates, ascending.
pub open spec fn aligned_paths(cs: Seq<CandidateView>) -> Seq<Seq<Seq<char>>> {
    ascending_of(cs.map_values(path_of_fn()).to_set(), texts_key_fn())
}

pub open spec fn on_path(p: Seq<Seq<char>>) -> spec_fn(CandidateView) -> bool {
    |c: CandidateView| c.path == p
}

/// The candidates on one path, in input order.
pub open spec fn group(cs: Seq<CandidateView>, p: Seq<Seq<char>>) -> Seq<CandidateView> {
    cs.filter(on_path(p))
}

pub open spec fn kind_identity_key(c: CandidateView) -> Seq<u32> {
    rank_key(kind_rank(c.kind)) + text_key(c.identity)
}

/// A candidate of the group with mixed provenance that no other such candidate
/// precedes by kind and identity.
pub open spec fn is_first_mixed(g: Seq<CandidateView>, c: CandidateView) -> bool {
    &&& g.contains(c)
    &&& mixed(c)
    &&& forall|d: CandidateView| g.contains(d) && mixed(d) ==> !key_lt(#[trigger] kind_identity_key(d), kind_identity_key(c))
}

/// The identity that a group's provenance error names, if any of its candidates mixes provenance.
pub open spec fn group_error(g: Seq<CandidateView>) -> Option<Seq<char>> {
    if exists|c: CandidateView| g.contains(c) && mixed(c) {
        Some((choose|c: CandidateView| is_first_mixed(g, c)).identity)
    } else {
        None
    }
}

/// All evidence of a group.
pub open spec fn group_evidence(g: Seq<CandidateView>) -> Set<EvidenceView>
    decreases g.len(),
{
    if g.len() == 0 {
        Set::empty()
    } else {
        group_evidence(g.drop_last()) + g.last().evidence
    }
}

pub open spec fn eligible_source(c: CandidateView) -> bool {
    &&& c.facets.contains(ContractFacet::Structure)
    &&& c.mechanisms.contains(CandidateMechanism::RustSerializedField)
    &&& c.mechanisms.contains(CandidateMechanism::RustTypeReference)
}

pub open spec fn eligible_schema(c: CandidateView) -> bool {
    &&& c.facets.contains(ContractFacet::Structure)
    &&& c.mechanisms.contains(CandidateMechanism::JsonSchemaProperty)
}

/// A Rust source candidate and a schema candidate that confirm each other.
pub open spec fn confirms(src: CandidateView, sch: CandidateView) -> bool {
    &&& src.kind == RepresentationKind::SourceCode
    &&& sch.kind == RepresentationKind::Schema
    &&& eligible_source(src)
    &&& eligible_schema(sch)
    &&& provenance(src) == provenance(sch)
}

pub open spec fn group_state(g: Seq<CandidateView>) -> AlignmentState {
    if g.len() == 2 && (confirms(g[0], g[1]) || confirms(g[1], g[0])) {
        AlignmentState::Confirmed
    } else {
        AlignmentState::Unresolved
    }
}

pub open spec fn decision(cs: Seq<CandidateView>, p: Seq<Seq<char>>) -> DecisionView {
    let g = group(cs, p);
    DecisionView {
        path: p,
        candidates: stable_sort_by(g.map_values(key_view_fn()), key_order_fn()),
        facet: ContractFacet::Structure,
        state: group_state(g),
        evidence: ascending_of(group_evidence(g), evidence_key_fn()),
    }
}

/// The decisions of the first `k` paths, or the first provenance error among them.
pub open spec fn alignment_upto(cs: Seq<CandidateView>, ps: Seq<Seq<Seq<char>>>, k: int) -> Result<
    Seq<DecisionView>,
    AnalysisErrorView,
>
    decreases k,
{
    if k <= 0 || k > ps.len() {
        Ok(Seq::empty())
    } else {
        match alignment_upto(cs, ps, k - 1) {
            Err(e) => Err(e),
            Ok(ds) => match group_error(group(cs, ps[k - 1])) {
                Some(id) => Err(AnalysisErrorView::InvalidAlignment("candidate "@ + id + " mixes source provenance"@)),
                None => Ok(ds.push(decision(cs, ps[k - 1]))),
            },
        }
    }
}

/// The alignment of a list of candidates: one decision per distinct path, in
/// path order, or the first provenance error.
pub open spec fn alignment(cs: Seq<CandidateView>) -> Result<Seq<DecisionView>, AnalysisErrorView> {
    alignment_upto(cs, aligned_paths(cs), aligned_paths(cs).len() as int)
}

proof fn lemma_alignment_err(cs: Seq<CandidateView>, ps: Seq<Seq<Seq<char>>>, k: int, n: int)
    requires
        0 <= k <= n <= ps.len(),
        alignment_upto(cs, ps, k) is Err,
    ensures
        alignment_upto(cs, ps, n) == alignment_upto(cs, ps, k),
    decreases n - k,
{
    if n > k {
        lemma_alignment_err(cs, ps, k, n - 1);
    }
}

/// The evidence of a candidate all shares one source and revision: the first item's.
fn candidate_provenance(c: &RepresentationCandidate) -> (r: Option<(String, Revision)>)
    requires
        c.evidence@.len() > 0,
    ensures
        r is None <==> mixed(c@),
        r matches Some(p) ==> (p.0@, p.1@) == provenance(c@),
{
    let first = &c.evidence[0];
    let ghost ev = evidence_views(c.evidence@);
    assert(ev[0] == first@);
    assert(c@.evidence.contains(first@));
    let mut i: usize = 0;
    while i < c.evidence.len()
        invariant
            i <= c.evidence.len(),
            ev == evidence_views(c.evidence@),
            first@ == ev[0],
            forall|k: int| 0 <= k < i ==> (#[trigger] ev[k]).source == first@.source && ev[k].revision == first@.revision,
        decreases c.evidence.len() - i,
    {
        let item = &c.evidence[i];
        assert(ev[i as int] == item@);
        if !text_eq(item.source.as_str(), first.source.as_str()) || !revision_eq(&item.revision, &first.revision) {
            assert(ev.contains(ev[i as int]));
            assert(ev.contains(ev[0]));
            assert(c@.evidence.contains(item@) && c@.evidence.contains(first@) && (item@.source != first@.source || item@.revision != first@.revision));
            return None;
        }
        i = i + 1;
    }
    proof {
        assert forall|a: EvidenceView| #[trigger] c@.evidence.contains(a) implies a.source == first@.source && a.revision == first@.revision by {
            let k = choose|k: int| 0 <= k < ev.len() && ev[k] == a;
        }
        let e = choose|e: EvidenceView| c@.evidence.contains(e);
    }
    Some((first.source.clone(), clone_revision(&first.revision)))
}

pub fn mechanisms_hold(c: &RepresentationCandidate, m: CandidateMechanism) -> (r: bool)
    ensures
        r == c@.mechanisms.contains(m),
{
    let mut i: usize = 0;
    while i < c.mechanisms.len()
        invariant
            i <= c.mechanisms.len(),
            forall|k: int| 0 <= k < i ==> c.mechanisms@[k] != m,
        decreases c.mechanisms.len() - i,
    {
        if c.mechanisms[i] == m {
            assert(c.mechanisms@.contains(m));
            return true;
        }
        i = i + 1;
    }
    false
}

pub fn facets_hold(c: &RepresentationCandidate, f: ContractFacet) -> (r: bool)
    ensures
        r == c@.facets.contains(f),
{
    let mut i: usize = 0;
    while i < c.facets.len()
        invariant
            i <= c.facets.len(),
            forall|k: int| 0 <= k < i ==> c.facets@[k] != f,
        decreases c.facets.len() - i,
    {
        if c.facets[i] == f {
            assert(c.facets@.contains(f));
            return true;
        }
        i = i + 1;
    }
    false
}

fn confirms_exec(src: &RepresentationCandidate, sch: &RepresentationCandidate) -> (r: bool)
    requires
        src.evidence@.len() > 0,
        sch.evidence@.len() > 0,
        !mixed(src@),
        !mixed(sch@),
    ensures
        r == confirms(src@, sch@),
{
    if src.kind != RepresentationKind::SourceCode || sch.kind != RepresentationKind::Schema {
        return false;
    }
    if !facets_hold(src, ContractFacet::Structure) || !mechanisms_hold(src, CandidateMechanism::RustSerializedField)
        || !mechanisms_hold(src, CandidateMechanism::RustTypeReference) {
        return false;
    }
    if !facets_hold(sch, ContractFacet::Structure) || !mechanisms_hold(sch, CandidateMechanism::JsonSchemaProperty) {
        return false;
    }
    match (candidate_provenance(src), candidate_provenance(sch)) {
        (Some(a), Some(b)) => text_eq(a.0.as_str(), b.0.as_str()) && revision_eq(&a.1, &b.1),
        _ => false,
    }
}

/// Two first mixed candidates of a group name the same identity.
proof fn lemma_first_mixed_identity(g: Seq<CandidateView>, a: CandidateView, b: CandidateView)
    requires
        is_first_mixed(g, a),
        is_first_mixed(g, b),
    ensures
        a.identity == b.identity,
{
    let ka = kind_identity_key(a);
    let kb = kind_identity_key(b);
    assert(!key_lt(ka, kb));
    assert(!key_lt(kb, ka));
    lemma_key_lt_total(ka, kb);
    let ra = rank_key(kind_rank(a.kind));
    let rb = rank_key(kind_rank(b.kind));
    assert(ra[0] == ka[0] && rb[0] == kb[0]);
    assert(ra =~= rb);
    assert(text_key(a.identity) =~= ka.skip(2));
    assert(text_key(b.identity) =~= kb.skip(2));
    assert(text_key(a.identity) + Seq::<u32>::empty() =~= text_key(a.identity));
    assert(text_key(b.identity) + Seq::<u32>::empty() =~= text_key(b.identity));
    lemma_text_key_injective(a.identity, Seq::empty(), b.identity, Seq::empty());
}

fn kind_identity_key_exec(c: &RepresentationCandidate) -> (k: Vec<u32>)
    ensures
        k@ == kind_identity_key(c@),
{
    let mut k: Vec<u32> = Vec::new();
    push_rank_key(&mut k, kind_rank_of(c.kind));
    push_text_key(&mut k, c.qualified_local_identity.as_str());
    assert(k@ =~= kind_identity_key(c@));
    k
}

/// The distinct semantic paths of the candidates, ascending.
pub fn distinct_paths(candidates: &[RepresentationCandidate]) -> (paths: Vec<SemanticPath>)
    ensures
        paths@.map_values(|p: SemanticPath| p@) == aligned_paths(candidate_views(candidates@)),
{
    let ghost cs = candidate_views(candidates@);
    let mut all_paths: Vec<SemanticPath> = Vec::new();
    let mut i: usize = 0;
    while i < candidates.len()
        invariant
            i <= candidates.len(),
            cs == candidate_views(candidates@),
            all_paths@.len() == i,
            forall|k: int| 0 <= k < i ==> (#[trigger] all_paths@[k])@ == cs[k].path,
        decreases candidates.len() - i,
    {
        all_paths.push(candidates[i].semantic_path.duplicate());
        i = i + 1;
    }
    let ghost originals = all_paths@;
    let paths = sort_unique_by_key(all_paths);
    let ghost ps = paths@.map_values(|p: SemanticPath| p@);
    proof {
        let st = cs.map_values(path_of_fn()).to_set();
        assert(ascending_by(ps, texts_key_fn())) by {
            assert forall|a: int, b: int| 0 <= a < b < ps.len() implies key_lt(
                texts_key_fn()(#[trigger] ps[a]),
                texts_key_fn()(#[trigger] ps[b]),
            ) by {
                assert(ps[a] == paths@[a]@);
                assert(ps[b] == paths@[b]@);
                assert(key_lt(paths@[a].sort_key(), paths@[b].sort_key()));
            }
        }
        assert forall|x: Seq<Seq<char>>| ps.to_set().contains(x) <==> st.contains(x) by {
            if ps.to_set().contains(x) {
                let a = choose|a: int| 0 <= a < ps.len() && ps[a] == x;
                assert(originals.contains(paths@[a]));
                let j = choose|j: int| 0 <= j < originals.len() && originals[j] == paths@[a];
                assert(cs.map_values(path_of_fn())[j] == x);
            }
            if st.contains(x) {
                let j = choose|j: int| 0 <= j < cs.len() && cs.map_values(path_of_fn())[j] == x;
                assert(holds_key_of(paths@, originals[j]));
                let a = choose|a: int| 0 <= a < paths@.len() && #[trigger] paths@[a].sort_key() == originals[j].sort_key();
                lemma_texts_key_injective(paths@[a]@, originals[j]@);
                assert(ps[a] == x);
            }
        }
        assert(ps.to_set() =~= st);
        lemma_ascending_unique(ps, aligned_paths(cs), texts_key_fn());
    }
    paths
}

/// Aligns candidates by semantic path.
#[verifier::rlimit(30)]
pub fn align_candidates(candidates: &[RepresentationCandidate]) -> (r: Result<Vec<AlignmentDecision>, AnalysisError>)
    requires
        forall|i: int| 0 <= i < candidates@.len() ==> (#[trigger] candidates@[i]).evidence@.len() > 0,
    ensures
        match alignment(candidate_views(candidates@)) {
            Ok(ds) => r matches Ok(v) && decision_views(v@) == ds,
            Err(e) => r matches Err(x) && x@ == e,
        },
{
    let ghost cs = candidate_views(candidates@);
    let paths = distinct_paths(candidates);
    let ghost ps = paths@.map_values(|p: SemanticPath| p@);
    let mut decisions: Vec<AlignmentDecision> = Vec::new();
    let mut k: usize = 0;
    assert(decision_views(decisions@) =~= Seq::<DecisionView>::empty());
    while k < paths.len()
        invariant
            k <= paths.len(),
            cs == candidate_views(candidates@),
            ps == paths@.map_values(|p: SemanticPath| p@),
            ps == aligned_paths(cs),
            forall|i: int| 0 <= i < candidates@.len() ==> (#[trigger] candidates@[i]).evidence@.len() > 0,
            alignment_upto(cs, ps, k as int) == Ok::<Seq<DecisionView>, AnalysisErrorView>(decision_views(decisions@)),
        decreases paths.len() - k,
    {
        let p = &paths[k];
        assert(p@ == ps[k as int]);
        let ghost pred = on_path(p@);
        // the group, in input order
        let mut idx: Vec<usize> = Vec::new();
        let mut i: usize = 0;
        while i < candidates.len()
            invariant
                i <= candidates.len(),
                cs == candidate_views(candidates@),
                pred == on_path(p@),
                forall|j: int| 0 <= j < idx@.len() ==> (#[trigger] idx@[j]) < candidates@.len(),
                idx@.map_values(|j: usize| cs[j as int]) == cs.take(i as int).filter(pred),
            decreases candidates.len() - i,
        {
            assert(cs.take(i + 1).drop_last() =~= cs.take(i as int));
            assert(cs.take(i + 1).last() == cs[i as int]);
            let ghost before = idx@;
            assert(cs[i as int] == candidates@[i as int]@);
            reveal(Seq::filter);
            assert(cs.take(i + 1).filter(pred) == (if pred(cs[i as int]) {
                cs.take(i as int).filter(pred).push(cs[i as int])
            } else {
                cs.take(i as int).filter(pred)
            }));
            if candidates[i].semantic_path.same_as(p) {
                idx.push(i);
                assert(idx@.map_values(|j: usize| cs[j as int]) =~= before.map_values(|j: usize| cs[j as int]).push(cs[i as int]));
            }
            i = i + 1;
        }
        assert(cs.take(candidates.len() as int) =~= cs);
        let ghost g = group(cs, p@);
        assert(idx@.map_values(|j: usize| cs[j as int]) == g);
        assert forall|j: int| 0 <= j < idx@.len() implies g[j] == cs[idx@[j] as int] by {
            assert(idx@.map_values(|j: usize| cs[j as int])[j] == cs[idx@[j] as int]);
        }
        // the provenance error of the group
        let mut found = false;
        let mut best: usize = 0;
        let mut best_key: Vec<u32> = Vec::new();
        let mut j: usize = 0;
        while j < idx.len()
            invariant
                j <= idx.len(),
                cs == candidate_views(candidates@),
                forall|t: int| 0 <= t < idx@.len() ==> (#[trigger] idx@[t]) < candidates@.len(),
                forall|t: int| 0 <= t < idx@.len() ==> g[t] == cs[idx@[t] as int],
                g.len() == idx@.len(),
                forall|i: int| 0 <= i < candidates@.len() ==> (#[trigger] candidates@[i]).evidence@.len() > 0,
                found ==> best < idx@.len() && mixed(g[best as int]) && best_key@ == kind_identity_key(g[best as int]),
                found <==> exists|t: int| 0 <= t < j && mixed(#[trigger] g[t]),
                found ==> forall|t: int| 0 <= t < j && mixed(#[trigger] g[t]) ==> !key_lt(kind_identity_key(g[t]), best_key@),
            decreases idx.len() - j,
        {
            let c = &candidates[idx[j]];
            assert(c@ == g[j as int]);
            if candidate_provenance(c).is_none() {
                let ck = kind_identity_key_exec(c);
                if !found || crate::order::key_compare(&ck, &best_key) < 0 {
                    proof {
                        if found {
                            assert forall|t: int| 0 <= t < j + 1 && mixed(#[trigger] g[t]) implies !key_lt(kind_identity_key(g[t]), ck@) by {
                                if t < j {
                                    if key_lt(kind_identity_key(g[t]), ck@) {
                                        lemma_key_lt_transitive(kind_identity_key(g[t]), ck@, best_key@);
                                    }
                                } else {
                                    lemma_key_lt_irreflexive(ck@);
                                }
                            }
                        } else {
                            assert forall|t: int| 0 <= t < j + 1 && mixed(#[trigger] g[t]) implies !key_lt(kind_identity_key(g[t]), ck@) by {
                                lemma_key_lt_irreflexive(ck@);
                            }
                        }
                    }
                    found = true;
                    best = j;
                    best_key = ck;
                } else {
                    proof {
                        lemma_key_lt_total(ck@, best_key@);
                    }
                }
            }
            j = j + 1;
        }
        if found {
            let named = &candidates[idx[best]];
            proof {
                assert(named@ == g[best as int]);
                assert(g.contains(g[best as int]));
                assert(is_first_mixed(g, g[best as int])) by {
                    assert forall|d: CandidateView| g.contains(d) && mixed(d) implies !key_lt(#[trigger] kind_identity_key(d), kind_identity_key(g[best as int])) by {
                        let t = choose|t: int| 0 <= t < g.len() && g[t] == d;
                    }
                }
                let chosen = choose|c: CandidateView| is_first_mixed(g, c);
                lemma_first_mixed_identity(g, chosen, g[best as int]);
                assert(group_error(g) == Some(named@.identity));
                lemma_alignment_err(cs, ps, k + 1, ps.len() as int);
            }
            return Err(AnalysisError::InvalidAlignment(cat3("candidate ", named.qualified_local_identity.as_str(), " mixes source provenance")));
        }
        assert(group_error(g) is None);
        // keys, sorted
        let mut keys: Vec<CandidateKey> = Vec::new();
        let mut evidence: Vec<CandidateEvidence> = Vec::new();
        let mut j: usize = 0;
        while j < idx.len()
            invariant
                j <= idx.len(),
                cs == candidate_views(candidates@),
                forall|t: int| 0 <= t < idx@.len() ==> (#[trigger] idx@[t]) < candidates@.len(),
                forall|t: int| 0 <= t < idx@.len() ==> g[t] == cs[idx@[t] as int],
                g.len() == idx@.len(),
                forall|t: int| 0 <= t < g.len() ==> !mixed(#[trigger] g[t]),
                forall|i: int| 0 <= i < candidates@.len() ==> (#[trigger] candidates@[i]).evidence@.len() > 0,
                key_views(keys@) == g.take(j as int).map_values(key_view_fn()),
                evidence_views(evidence@).to_set() == group_evidence(g.take(j as int)),
            decreases idx.len() - j,
        {
            let c = &candidates[idx[j]];
            assert(c@ == g[j as int]);
            assert(!mixed(g[j as int]));
            let (source, revision) = match candidate_provenance(c) {
                Some(pr) => pr,
                None => {
                    return Err(AnalysisError::InvalidAlignment(cat3("candidate ", c.qualified_local_identity.as_str(), " mixes source provenance")));
                },
            };
            let ghost kb = keys@;
            keys.push(CandidateKey {
                source,
                revision,
                kind: c.kind,
                qualified_local_identity: c.qualified_local_identity.clone(),
                locator: c.locator.clone(),
            });
            assert(g.take(j + 1).drop_last() =~= g.take(j as int));
            assert(g.take(j + 1).last() == g[j as int]);
            assert(key_views(keys@) =~= key_views(kb).push(keys@.last()@));
            assert(keys@.last()@ == key_view(g[j as int]));
            assert(key_views(keys@) =~= g.take(j + 1).map_values(key_view_fn()));
            let ghost eb = evidence_views(evidence@);
            let mut t: usize = 0;
            while t < c.evidence.len()
                invariant
                    t <= c.evidence.len(),
                    evidence_views(evidence@).to_set() == eb.to_set() + evidence_views(c.evidence@).take(t as int).to_set(),
                decreases c.evidence.len() - t,
            {
                let ghost e0 = evidence_views(evidence@);
                evidence.push(clone_evidence(&c.evidence[t]));
                proof {
                    assert(evidence_views(evidence@) =~= e0.push(c.evidence@[t as int]@));
                    crate::order::lemma_push_to_set(e0, c.evidence@[t as int]@);
                    assert(evidence_views(c.evidence@).take(t + 1) =~= evidence_views(c.evidence@).take(t as int).push(c.evidence@[t as int]@));
                    crate::order::lemma_push_to_set(evidence_views(c.evidence@).take(t as int), c.evidence@[t as int]@);
                    assert(evidence_views(evidence@).to_set() =~= eb.to_set() + evidence_views(c.evidence@).take(t + 1).to_set());
                }
                t = t + 1;
            }
            proof {
                assert(evidence_views(c.evidence@).take(c.evidence.len() as int) =~= evidence_views(c.evidence@));
                assert(evidence_views(evidence@).to_set() =~= group_evidence(g.take(j + 1)));
            }
            j = j + 1;
        }
        assert(g.take(g.len() as int) =~= g);
        let ghost unsorted_keys = keys@;
        let sorted_keys = sort_by_key(keys);
        proof {
            lemma_stable_sort_map(unsorted_keys, key_of::<CandidateKey>(), |x: CandidateKey| x@, key_order_fn());
            assert(key_views(sorted_keys@) == stable_sort_by(g.map_values(key_view_fn()), key_order_fn()));
        }
        let ghost unsorted_evidence = evidence_views(evidence@);
        let ordered_evidence = sorted_evidence(evidence);
        proof {
            let ev = evidence_views(ordered_evidence@);
            lemma_same_members_set(ev, unsorted_evidence);
            assert forall|a: int, b: int| 0 <= a < b < ev.len() implies key_lt(
                evidence_key_fn()(#[trigger] ev[a]),
                evidence_key_fn()(#[trigger] ev[b]),
            ) by {
                assert(key_lt(ordered_evidence@[a].sort_key(), ordered_evidence@[b].sort_key()));
            }
            lemma_ascending_unique(ev, ascending_of(group_evidence(g), evidence_key_fn()), evidence_key_fn());
        }
        let state = if idx.len() == 2 && (confirms_exec(&candidates[idx[0]], &candidates[idx[1]]) || confirms_exec(
            &candidates[idx[1]],
            &candidates[idx[0]],
        )) {
            AlignmentState::Confirmed
        } else {
            AlignmentState::Unresolved
        };
        let ghost db = decisions@;
        decisions.push(AlignmentDecision {
            semantic_path: p.duplicate(),
            candidates: sorted_keys,
            facet: ContractFacet::Structure,
            state,
            evidence: ordered_evidence,
        });
        proof {
            assert(decisions@.last()@ == decision(cs, ps[k as int]));
            assert(decision_views(decisions@) =~= decision_views(db).push(decision(cs, ps[k as int])));
        }
        k = k + 1;
    }
    Ok(decisions)
}

} // verus!
