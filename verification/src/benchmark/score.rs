//! Scoring one benchmark case: what the observed graph shares with the golden
//! expectations, counted over distinct contracts, authority claims, relations,
//! lifecycle facts and contested-clause findings.

use vstd::prelude::*;
use crate::analysis::candidate::texts_eq;
use crate::benchmark::model::{GoldenFindingV1, GoldenV1, GraphNodeRefV1};
use crate::text::{owned, text_eq, views};

verus! {

/// How a case ended.
#[derive(Debug, Clone, Copy, PartialEq, Eq, Structural)]
pub enum CaseStatus {
    ExecutionFailure,
    InvalidOutput,
    Scored,
}

pub open spec fn case_status_name(s: CaseStatus) -> Seq<char> {
    match s {
        CaseStatus::ExecutionFailure => "execution-failure"@,
        CaseStatus::InvalidOutput => "invalid-output"@,
        CaseStatus::Scored => "scored"@,
    }
}

impl CaseStatus {
    /// The serialized name of the status.
    pub fn name(&self) -> (r: &'static str)
        ensures
            r@ == case_status_name(*self),
    {
        match self {
            CaseStatus::ExecutionFailure => "execution-failure",
            CaseStatus::InvalidOutput => "invalid-output",
            CaseStatus::Scored => "scored",
        }
    }
}

/// A numerator over a denominator.
#[derive(Debug, Clone, Copy, PartialEq, Eq, Structural)]
pub struct Counts {
    pub numerator: u64,
    pub denominator: u64,
}

/// What the observed graph of a case holds.
#[derive(Debug, Clone)]
pub struct ObservedAuthority {
    pub contract: String,
    pub facet: String,
    pub representation: String,
}

#[derive(Debug, Clone)]
pub struct ObservedRelation {
    pub from: GraphNodeRefV1,
    pub kind: String,
    pub to: GraphNodeRefV1,
}

#[derive(Debug, Clone)]
pub struct ObservedAssessment {
    pub clause: String,
    pub status: String,
}

#[derive(Debug, Clone)]
pub struct ObservedLifecycle {
    pub subject: GraphNodeRefV1,
    pub status: String,
}

#[derive(Debug, Clone)]
pub struct ObservedPlacement {
    pub contract: String,
    pub locator: String,
}

#[derive(Debug, Clone)]
pub struct ObservedGraph {
    pub contracts: Vec<String>,
    pub representations: Vec<ObservedPlacement>,
    pub relations: Vec<ObservedRelation>,
    pub authority_claims: Vec<ObservedAuthority>,
    pub clause_assessments: Vec<ObservedAssessment>,
    pub lifecycle: Vec<ObservedLifecycle>,
}

/// The counts of one case; the ratios follow from them.
#[derive(Debug, Clone)]
pub struct CaseCounts {
    pub contract_precision: Counts,
    pub contract_recall: Counts,
    pub false_contract_rate: Counts,
    pub authority_correctness: Counts,
    pub relationship_precision: Counts,
    pub relationship_recall: Counts,
    pub lifecycle_correctness: Option<Counts>,
    pub finding_precision: Counts,
    pub finding_recall: Counts,
    pub diagnostics: Vec<String>,
}

// ---- tuples of texts, compared as sets ----

pub open spec fn tuple_views(v: Seq<Vec<String>>) -> Seq<Seq<Seq<char>>> {
    v.map_values(|t: Vec<String>| views(t@))
}

pub open spec fn tuple_set(v: Seq<Vec<String>>) -> Set<Seq<Seq<char>>> {
    tuple_views(v).to_set()
}

fn holds_tuple(v: &Vec<Vec<String>>, t: &Vec<String>) -> (r: bool)
    ensures
        r == tuple_set(v@).contains(views(t@)),
{
    let mut i: usize = 0;
    while i < v.len()
        invariant
            i <= v.len(),
            forall|k: int| 0 <= k < i ==> views(v@[k]@) != views(t@),
        decreases v.len() - i,
    {
        if texts_eq(v[i].as_slice(), t.as_slice()) {
            assert(tuple_views(v@)[i as int] == views(t@));
            assert(tuple_views(v@).contains(views(t@)));
            return true;
        }
        i = i + 1;
    }
    assert(!tuple_views(v@).contains(views(t@)));
    false
}

/// The number of distinct tuples of `a` that `keep` says are (or are not) in `b`.
fn count_tuples(a: &Vec<Vec<String>>, b: &Vec<Vec<String>>, mode: u8) -> (r: u64)
    ensures
        mode == 0 ==> r == tuple_set(a@).len(),
        mode == 1 ==> r == tuple_set(a@).intersect(tuple_set(b@)).len(),
        mode == 2 ==> r == tuple_set(a@).difference(tuple_set(b@)).len(),
{
    let ghost av = tuple_views(a@);
    let ghost sb = tuple_set(b@);
    let ghost target = if mode == 0 {
        av.to_set()
    } else if mode == 1 {
        av.to_set().intersect(sb)
    } else {
        av.to_set().difference(sb)
    };
    let mut kept: Vec<Vec<String>> = Vec::new();
    let mut i: usize = 0;
    while i < a.len()
        invariant
            i <= a.len(),
            av == tuple_views(a@),
            sb == tuple_set(b@),
            kept@.len() <= i,
            tuple_views(kept@).no_duplicates(),
            forall|x: Seq<Seq<char>>| #[trigger] tuple_views(kept@).contains(x) <==> (av.take(i as int).contains(x) && (mode == 0 || (mode == 1 && sb.contains(x)) || (mode != 0 && mode != 1 && !sb.contains(x)))),
        decreases a.len() - i,
    {
        let t = &a[i];
        assert(av[i as int] == views(t@));
        let seen = holds_tuple(&kept, t);
        let wanted = mode == 0 || (mode == 1 && holds_tuple(b, t)) || (mode != 0 && mode != 1 && !holds_tuple(b, t));
        let ghost before = tuple_views(kept@);
        proof {
            assert forall|x: Seq<Seq<char>>| av.take(i + 1).contains(x) <==> (av.take(i as int).contains(x) || x == views(t@)) by {
                if av.take(i + 1).contains(x) {
                    let k = choose|k: int| 0 <= k < i + 1 && #[trigger] av.take(i + 1)[k] == x;
                    if k < i {
                        assert(av.take(i as int)[k] == x);
                    }
                }
                if av.take(i as int).contains(x) {
                    let k = choose|k: int| 0 <= k < i && #[trigger] av.take(i as int)[k] == x;
                    assert(av.take(i + 1)[k] == x);
                }
                if x == views(t@) {
                    assert(av.take(i + 1)[i as int] == x);
                }
            }
        }
        if !seen && wanted {
            kept.push(t.clone());
            proof {
                assert(tuple_views(kept@) =~= before.push(views(t@)));
                assert forall|x: Seq<Seq<char>>| #[trigger] tuple_views(kept@).contains(x) <==> (before.contains(x) || x == views(t@)) by {
                    if tuple_views(kept@).contains(x) {
                        let k = choose|k: int| 0 <= k < tuple_views(kept@).len() && tuple_views(kept@)[k] == x;
                        if k < before.len() {
                            assert(before[k] == x);
                        }
                    }
                    if before.contains(x) {
                        let k = choose|k: int| 0 <= k < before.len() && before[k] == x;
                        assert(tuple_views(kept@)[k] == x);
                    }
                    if x == views(t@) {
                        assert(tuple_views(kept@)[before.len() as int] == x);
                    }
                }
                assert(tuple_set(kept@).contains(views(t@)) || true);
            }
        }
        i = i + 1;
    }
    proof {
        assert(av.take(a.len() as int) =~= av);
        assert(tuple_views(kept@).to_set() =~= target);
        tuple_views(kept@).unique_seq_to_set();
    }
    kept.len() as u64
}

// ---- the tuples of each kind ----

/// Contracts by id.
pub open spec fn golden_contract_list(g: GoldenV1) -> Seq<Seq<Seq<char>>> {
    Seq::new(g.contracts@.len(), |k: int| seq![g.contracts@[k].id@])
}

pub open spec fn golden_contract_tuples(g: GoldenV1) -> Set<Seq<Seq<char>>> {
    golden_contract_list(g).to_set()
}

pub open spec fn observed_contract_list(o: ObservedGraph) -> Seq<Seq<Seq<char>>> {
    Seq::new(o.contracts@.len(), |k: int| seq![o.contracts@[k]@])
}

pub open spec fn observed_contract_tuples(o: ObservedGraph) -> Set<Seq<Seq<char>>> {
    observed_contract_list(o).to_set()
}

/// Authority claims by contract, facet and representation.
pub open spec fn golden_authority_list(g: GoldenV1) -> Seq<Seq<Seq<char>>> {
    Seq::new(
        g.authority_claims@.len(),
        |k: int| seq![g.authority_claims@[k].contract@, g.authority_claims@[k].facet@, g.authority_claims@[k].representation@],
    )
}

pub open spec fn golden_authority_tuples(g: GoldenV1) -> Set<Seq<Seq<char>>> {
    golden_authority_list(g).to_set()
}

pub open spec fn observed_authority_list(o: ObservedGraph) -> Seq<Seq<Seq<char>>> {
    Seq::new(
        o.authority_claims@.len(),
        |k: int| seq![o.authority_claims@[k].contract@, o.authority_claims@[k].facet@, o.authority_claims@[k].representation@],
    )
}

pub open spec fn observed_authority_tuples(o: ObservedGraph) -> Set<Seq<Seq<char>>> {
    observed_authority_list(o).to_set()
}

pub open spec fn relation_tuple(from: GraphNodeRefV1, kind: String, to: GraphNodeRefV1) -> Seq<Seq<char>> {
    seq![from.kind@, from.id@, kind@, to.kind@, to.id@]
}

/// Relations by their two ends and kind.
pub open spec fn golden_relation_list(g: GoldenV1) -> Seq<Seq<Seq<char>>> {
    Seq::new(
        g.relationships@.len(),
        |k: int| relation_tuple(g.relationships@[k].from, g.relationships@[k].kind, g.relationships@[k].to),
    )
}

pub open spec fn golden_relation_tuples(g: GoldenV1) -> Set<Seq<Seq<char>>> {
    golden_relation_list(g).to_set()
}

pub open spec fn observed_relation_list(o: ObservedGraph) -> Seq<Seq<Seq<char>>> {
    Seq::new(o.relations@.len(), |k: int| relation_tuple(o.relations@[k].from, o.relations@[k].kind, o.relations@[k].to))
}

pub open spec fn observed_relation_tuples(o: ObservedGraph) -> Set<Seq<Seq<char>>> {
    observed_relation_list(o).to_set()
}

/// Findings: the clauses expected to be contested, and those observed contested.
pub open spec fn golden_finding_list(g: GoldenV1) -> Seq<Seq<Seq<char>>> {
    Seq::new(g.expected_findings@.len(), |k: int| seq![g.expected_findings@[k]->ContestedClause_clause@])
}

pub open spec fn golden_finding_tuples(g: GoldenV1) -> Set<Seq<Seq<char>>> {
    golden_finding_list(g).to_set()
}

/// The clauses of the first `n` assessments that are contested.
pub open spec fn contested_upto(a: Seq<ObservedAssessment>, n: int) -> Seq<Seq<Seq<char>>>
    decreases n,
{
    if n <= 0 || n > a.len() {
        Seq::empty()
    } else if a[n - 1].status@ == "contested"@ {
        contested_upto(a, n - 1).push(seq![a[n - 1].clause@])
    } else {
        contested_upto(a, n - 1)
    }
}

pub open spec fn observed_finding_tuples(o: ObservedGraph) -> Set<Seq<Seq<char>>> {
    contested_upto(o.clause_assessments@, o.clause_assessments@.len() as int).to_set()
}

/// The clauses of the first `n` assessments that are contested, as a membership fact.
proof fn lemma_contested_upto_members(a: Seq<ObservedAssessment>, n: int)
    requires
        0 <= n <= a.len(),
    ensures
        forall|t: Seq<Seq<char>>| contested_upto(a, n).contains(t) <==> exists|i: int|
            0 <= i < n && (#[trigger] a[i]).status@ == "contested"@ && t == seq![a[i].clause@],
    decreases n,
{
    if n > 0 {
        lemma_contested_upto_members(a, n - 1);
        let rest = contested_upto(a, n - 1);
        assert forall|t: Seq<Seq<char>>| contested_upto(a, n).contains(t) <==> exists|i: int|
            0 <= i < n && (#[trigger] a[i]).status@ == "contested"@ && t == seq![a[i].clause@] by {
            if a[n - 1].status@ == "contested"@ {
                let g = seq![a[n - 1].clause@];
                if rest.push(g).contains(t) && t != g {
                    let i = choose|i: int| 0 <= i < rest.push(g).len() && rest.push(g)[i] == t;
                    assert(rest[i] == t);
                }
                if rest.contains(t) {
                    let i = choose|i: int| 0 <= i < rest.len() && rest[i] == t;
                    assert(rest.push(g)[i] == t);
                }
                assert(rest.push(g)[rest.len() as int] == g);
                if exists|i: int| 0 <= i < n && (#[trigger] a[i]).status@ == "contested"@ && t == seq![a[i].clause@] {
                    let i = choose|i: int| 0 <= i < n && (#[trigger] a[i]).status@ == "contested"@ && t == seq![a[i].clause@];
                    if i < n - 1 {
                        assert(rest.contains(t));
                    }
                }
            }
        }
    }
}

/// The observed findings are exactly the clauses that some assessment marks
/// `contested`: an assessment with any other status adds no finding.
pub proof fn law_observed_findings_are_contested_clauses(o: ObservedGraph)
    ensures
        forall|t: Seq<Seq<char>>| #[trigger] observed_finding_tuples(o).contains(t) <==> exists|i: int|
            0 <= i < o.clause_assessments@.len() && (#[trigger] o.clause_assessments@[i]).status@ == "contested"@
                && t == seq![o.clause_assessments@[i].clause@],
{
    let a = o.clause_assessments@;
    lemma_contested_upto_members(a, a.len() as int);
}

/// Lifecycle facts by subject and status.
pub open spec fn golden_lifecycle_list(g: GoldenV1) -> Seq<Seq<Seq<char>>> {
    Seq::new(
        g.lifecycle@.len(),
        |k: int| seq![g.lifecycle@[k].subject.kind@, g.lifecycle@[k].subject.id@, g.lifecycle@[k].status@],
    )
}

pub open spec fn golden_lifecycle_tuples(g: GoldenV1) -> Set<Seq<Seq<char>>> {
    golden_lifecycle_list(g).to_set()
}

pub open spec fn observed_lifecycle_list(o: ObservedGraph) -> Seq<Seq<Seq<char>>> {
    Seq::new(
        o.lifecycle@.len(),
        |k: int| seq![o.lifecycle@[k].subject.kind@, o.lifecycle@[k].subject.id@, o.lifecycle@[k].status@],
    )
}

pub open spec fn observed_lifecycle_tuples(o: ObservedGraph) -> Set<Seq<Seq<char>>> {
    observed_lifecycle_list(o).to_set()
}

/// A known non-contract location became a representation of a contract that
/// the golden file does not list.
pub open spec fn known_non_contract_promoted(g: GoldenV1, o: ObservedGraph) -> bool {
    &&& g.non_contracts@.len() > 0
    &&& exists|i: int, j: int|
        0 <= i < o.representations@.len() && 0 <= j < g.non_contracts@.len()
            && (#[trigger] o.representations@[i]).locator@ == (#[trigger] g.non_contracts@[j]).locator@
            && !golden_contract_tuples(g).contains(seq![o.representations@[i].contract@])
}

pub open spec fn counts_of(n: nat, d: nat) -> Counts {
    Counts { numerator: n as u64, denominator: d as u64 }
}

/// The diagnostics of a case, in order, without repeats.
pub open spec fn score_diagnostics(g: GoldenV1, o: ObservedGraph) -> Seq<Seq<char>> {
    (if known_non_contract_promoted(g, o) { seq!["known_non_contract_promoted"@] } else { Seq::empty() })
        + (if g.lifecycle@.len() > 0 && o.lifecycle@.len() == 0 { seq!["lifecycle_not_observed"@] } else { Seq::empty() })
}

fn one(a: &String) -> (r: Vec<String>)
    ensures
        views(r@) == seq![a@],
{
    let mut r: Vec<String> = Vec::new();
    r.push(a.clone());
    assert(views(r@) =~= seq![a@]);
    r
}

fn three(a: &String, b: &String, c: &String) -> (r: Vec<String>)
    ensures
        views(r@) == seq![a@, b@, c@],
{
    let mut r: Vec<String> = Vec::new();
    r.push(a.clone());
    r.push(b.clone());
    r.push(c.clone());
    assert(views(r@) =~= seq![a@, b@, c@]);
    r
}

fn relation(from: &GraphNodeRefV1, kind: &String, to: &GraphNodeRefV1) -> (r: Vec<String>)
    ensures
        views(r@) == relation_tuple(*from, *kind, *to),
{
    let mut r: Vec<String> = Vec::new();
    r.push(from.kind.clone());
    r.push(from.id.clone());
    r.push(kind.clone());
    r.push(to.kind.clone());
    r.push(to.id.clone());
    assert(views(r@) =~= relation_tuple(*from, *kind, *to));
    r
}

/// Scores the observed graph of a case against its golden expectations.
#[verifier::rlimit(40)]
/// The counts of a case, compared with its golden truth: contract precision
/// and recall, false contracts, authority, relationships, lifecycle (when both
/// sides state one), findings, and the diagnostics.
pub open spec fn scored(r: CaseCounts, golden: GoldenV1, observed: ObservedGraph) -> bool {
    &&& r.contract_precision == counts_of(
            golden_contract_tuples(golden).intersect(observed_contract_tuples(observed)).len(),
            observed_contract_tuples(observed).len(),
        )
    &&& r.contract_recall == counts_of(
            golden_contract_tuples(golden).intersect(observed_contract_tuples(observed)).len(),
            golden_contract_tuples(golden).len(),
        )
    &&& r.false_contract_rate == counts_of(
            observed_contract_tuples(observed).difference(golden_contract_tuples(golden)).len(),
            observed_contract_tuples(observed).len(),
        )
    &&& r.authority_correctness == counts_of(
            golden_authority_tuples(golden).intersect(observed_authority_tuples(observed)).len(),
            golden_authority_tuples(golden).len(),
        )
    &&& r.relationship_precision == counts_of(
            golden_relation_tuples(golden).intersect(observed_relation_tuples(observed)).len(),
            observed_relation_tuples(observed).len(),
        )
    &&& r.relationship_recall == counts_of(
            golden_relation_tuples(golden).intersect(observed_relation_tuples(observed)).len(),
            golden_relation_tuples(golden).len(),
        )
    &&& r.lifecycle_correctness == (if golden.lifecycle@.len() == 0 || observed.lifecycle@.len() == 0 {
            None
        } else {
            Some(counts_of(
                golden_lifecycle_tuples(golden).intersect(observed_lifecycle_tuples(observed)).len(),
                golden_lifecycle_tuples(golden).len(),
            ))
        })
    &&& r.finding_precision == counts_of(
            golden_finding_tuples(golden).intersect(observed_finding_tuples(observed)).len(),
            observed_finding_tuples(observed).len(),
        )
    &&& r.finding_recall == counts_of(
            golden_finding_tuples(golden).intersect(observed_finding_tuples(observed)).len(),
            golden_finding_tuples(golden).len(),
        )
    &&& views(r.diagnostics@) == score_diagnostics(golden, observed)
}

pub fn score_case(golden: &GoldenV1, observed: &ObservedGraph) -> (r: CaseCounts)
    ensures
        scored(r, *golden, *observed),
{
    // contracts
    let mut gc: Vec<Vec<String>> = Vec::new();
    let mut i: usize = 0;
    while i < golden.contracts.len()
        invariant
            i <= golden.contracts.len(),
            gc@.len() == i,
            forall|k: int| 0 <= k < i ==> views((#[trigger] gc@[k])@) == seq![golden.contracts@[k].id@],
        decreases golden.contracts.len() - i,
    {
        gc.push(one(&golden.contracts[i].id));
        i = i + 1;
    }
    proof {
        assert(tuple_views(gc@) =~= golden_contract_list(*golden));
    }
    let mut oc: Vec<Vec<String>> = Vec::new();
    let mut i: usize = 0;
    while i < observed.contracts.len()
        invariant
            i <= observed.contracts.len(),
            oc@.len() == i,
            forall|k: int| 0 <= k < i ==> views((#[trigger] oc@[k])@) == seq![observed.contracts@[k]@],
        decreases observed.contracts.len() - i,
    {
        oc.push(one(&observed.contracts[i]));
        i = i + 1;
    }
    proof {
        assert(tuple_views(oc@) =~= observed_contract_list(*observed));
    }
    let matched = count_tuples(&gc, &oc, 1);
    let observed_count = count_tuples(&oc, &gc, 0);
    let golden_count = count_tuples(&gc, &oc, 0);
    let false_count = count_tuples(&oc, &gc, 2);
    proof {
        assert(tuple_set(gc@).intersect(tuple_set(oc@)) =~= tuple_set(oc@).intersect(tuple_set(gc@)));
    }
    // authority claims
    let mut ga: Vec<Vec<String>> = Vec::new();
    let mut i: usize = 0;
    while i < golden.authority_claims.len()
        invariant
            i <= golden.authority_claims.len(),
            ga@.len() == i,
            forall|k: int| 0 <= k < i ==> views((#[trigger] ga@[k])@) == seq![golden.authority_claims@[k].contract@, golden.authority_claims@[k].facet@, golden.authority_claims@[k].representation@],
        decreases golden.authority_claims.len() - i,
    {
        let c = &golden.authority_claims[i];
        ga.push(three(&c.contract, &c.facet, &c.representation));
        i = i + 1;
    }
    proof {
        assert(tuple_views(ga@) =~= golden_authority_list(*golden));
    }
    let mut oa: Vec<Vec<String>> = Vec::new();
    let mut i: usize = 0;
    while i < observed.authority_claims.len()
        invariant
            i <= observed.authority_claims.len(),
            oa@.len() == i,
            forall|k: int| 0 <= k < i ==> views((#[trigger] oa@[k])@) == seq![observed.authority_claims@[k].contract@, observed.authority_claims@[k].facet@, observed.authority_claims@[k].representation@],
        decreases observed.authority_claims.len() - i,
    {
        let c = &observed.authority_claims[i];
        oa.push(three(&c.contract, &c.facet, &c.representation));
        i = i + 1;
    }
    proof {
        assert(tuple_views(oa@) =~= observed_authority_list(*observed));
    }
    let authority_matched = count_tuples(&ga, &oa, 1);
    let authority_golden = count_tuples(&ga, &oa, 0);
    // relations
    let mut gr: Vec<Vec<String>> = Vec::new();
    let mut i: usize = 0;
    while i < golden.relationships.len()
        invariant
            i <= golden.relationships.len(),
            gr@.len() == i,
            forall|k: int| 0 <= k < i ==> views((#[trigger] gr@[k])@) == relation_tuple(golden.relationships@[k].from, golden.relationships@[k].kind, golden.relationships@[k].to),
        decreases golden.relationships.len() - i,
    {
        let x = &golden.relationships[i];
        gr.push(relation(&x.from, &x.kind, &x.to));
        i = i + 1;
    }
    proof {
        assert(tuple_views(gr@) =~= golden_relation_list(*golden));
    }
    let mut orl: Vec<Vec<String>> = Vec::new();
    let mut i: usize = 0;
    while i < observed.relations.len()
        invariant
            i <= observed.relations.len(),
            orl@.len() == i,
            forall|k: int| 0 <= k < i ==> views((#[trigger] orl@[k])@) == relation_tuple(observed.relations@[k].from, observed.relations@[k].kind, observed.relations@[k].to),
        decreases observed.relations.len() - i,
    {
        let x = &observed.relations[i];
        orl.push(relation(&x.from, &x.kind, &x.to));
        i = i + 1;
    }
    proof {
        assert(tuple_views(orl@) =~= observed_relation_list(*observed));
    }
    let relation_matched = count_tuples(&gr, &orl, 1);
    let relation_observed = count_tuples(&orl, &gr, 0);
    let relation_golden = count_tuples(&gr, &orl, 0);
    // findings
    let mut gf: Vec<Vec<String>> = Vec::new();
    let mut i: usize = 0;
    while i < golden.expected_findings.len()
        invariant
            i <= golden.expected_findings.len(),
            gf@.len() == i,
            forall|k: int| 0 <= k < i ==> views((#[trigger] gf@[k])@) == seq![golden.expected_findings@[k]->ContestedClause_clause@],
        decreases golden.expected_findings.len() - i,
    {
        match &golden.expected_findings[i] {
            GoldenFindingV1::ContestedClause { clause } => {
                gf.push(one(clause));
            },
        }
        i = i + 1;
    }
    proof {
        assert(tuple_views(gf@) =~= golden_finding_list(*golden));
    }
    let mut of: Vec<Vec<String>> = Vec::new();
    let mut i: usize = 0;
    while i < observed.clause_assessments.len()
        invariant
            i <= observed.clause_assessments.len(),
            tuple_views(of@) == contested_upto(observed.clause_assessments@, i as int),
        decreases observed.clause_assessments.len() - i,
    {
        let x = &observed.clause_assessments[i];
        let ghost before = of@;
        if text_eq(x.status.as_str(), "contested") {
            of.push(one(&x.clause));
            assert(tuple_views(of@) =~= tuple_views(before).push(seq![x.clause@]));
        }
        i = i + 1;
    }
    proof {
        assert(tuple_views(of@) =~= contested_upto(observed.clause_assessments@, observed.clause_assessments@.len() as int));
    }
    let finding_matched = count_tuples(&gf, &of, 1);
    let finding_observed = count_tuples(&of, &gf, 0);
    let finding_golden = count_tuples(&gf, &of, 0);
    // lifecycle
    let mut diagnostics: Vec<String> = Vec::new();
    let lifecycle = if golden.lifecycle.len() == 0 || observed.lifecycle.len() == 0 {
        None
    } else {
        let mut gl: Vec<Vec<String>> = Vec::new();
        let mut i: usize = 0;
        while i < golden.lifecycle.len()
            invariant
                i <= golden.lifecycle.len(),
                gl@.len() == i,
                forall|k: int| 0 <= k < i ==> views((#[trigger] gl@[k])@) == seq![golden.lifecycle@[k].subject.kind@, golden.lifecycle@[k].subject.id@, golden.lifecycle@[k].status@],
            decreases golden.lifecycle.len() - i,
        {
            let x = &golden.lifecycle[i];
            gl.push(three(&x.subject.kind, &x.subject.id, &x.status));
            i = i + 1;
        }
        proof {
            assert(tuple_views(gl@) =~= golden_lifecycle_list(*golden));
        }
        let mut ol: Vec<Vec<String>> = Vec::new();
        let mut i: usize = 0;
        while i < observed.lifecycle.len()
            invariant
                i <= observed.lifecycle.len(),
                ol@.len() == i,
                forall|k: int| 0 <= k < i ==> views((#[trigger] ol@[k])@) == seq![observed.lifecycle@[k].subject.kind@, observed.lifecycle@[k].subject.id@, observed.lifecycle@[k].status@],
            decreases observed.lifecycle.len() - i,
        {
            let x = &observed.lifecycle[i];
            ol.push(three(&x.subject.kind, &x.subject.id, &x.status));
            i = i + 1;
        }
        proof {
            assert(tuple_views(ol@) =~= observed_lifecycle_list(*observed));
        }
        Some(Counts { numerator: count_tuples(&gl, &ol, 1), denominator: count_tuples(&gl, &ol, 0) })
    };
    // known non-contracts
    let mut promoted = false;
    if golden.non_contracts.len() > 0 {
        let mut i: usize = 0;
        while i < observed.representations.len() && !promoted
            invariant
                i <= observed.representations.len(),
                tuple_set(gc@) == golden_contract_tuples(*golden),
                !promoted ==> forall|a: int, b: int| 0 <= a < i && 0 <= b < golden.non_contracts@.len() ==> !((#[trigger] observed.representations@[a]).locator@ == (#[trigger] golden.non_contracts@[b]).locator@ && !golden_contract_tuples(*golden).contains(seq![observed.representations@[a].contract@])),
                promoted ==> known_non_contract_promoted(*golden, *observed),
                golden.non_contracts@.len() > 0,
            decreases observed.representations.len() - i,
        {
            let rep = &observed.representations[i];
            let mut j: usize = 0;
            let mut listed = false;
            while j < golden.non_contracts.len() && !listed
                invariant
                    j <= golden.non_contracts.len(),
                    !listed ==> forall|b: int| 0 <= b < j ==> (#[trigger] golden.non_contracts@[b]).locator@ != rep.locator@,
                    listed ==> exists|b: int| 0 <= b < golden.non_contracts@.len() && (#[trigger] golden.non_contracts@[b]).locator@ == rep.locator@,
                decreases golden.non_contracts.len() - j,
            {
                if text_eq(golden.non_contracts[j].locator.as_str(), rep.locator.as_str()) {
                    listed = true;
                }
                j = j + 1;
            }
            if listed {
                let key = one(&rep.contract);
                if !holds_tuple(&gc, &key) {
                    promoted = true;
                    proof {
                        let b = choose|b: int| 0 <= b < golden.non_contracts@.len() && (#[trigger] golden.non_contracts@[b]).locator@ == rep.locator@;
                        assert(observed.representations@[i as int] == *rep);
                    }
                }
            }
            i = i + 1;
        }
    }
    if promoted {
        diagnostics.push(owned("known_non_contract_promoted"));
    }
    if golden.lifecycle.len() > 0 && observed.lifecycle.len() == 0 {
        diagnostics.push(owned("lifecycle_not_observed"));
    }
    proof {
        assert(views(diagnostics@) =~= score_diagnostics(*golden, *observed));
    }
    CaseCounts {
        contract_precision: Counts { numerator: matched, denominator: observed_count },
        contract_recall: Counts { numerator: matched, denominator: golden_count },
        false_contract_rate: Counts { numerator: false_count, denominator: observed_count },
        authority_correctness: Counts { numerator: authority_matched, denominator: authority_golden },
        relationship_precision: Counts { numerator: relation_matched, denominator: relation_observed },
        relationship_recall: Counts { numerator: relation_matched, denominator: relation_golden },
        lifecycle_correctness: lifecycle,
        finding_precision: Counts { numerator: finding_matched, denominator: finding_observed },
        finding_recall: Counts { numerator: finding_matched, denominator: finding_golden },
        diagnostics,
    }
}

/// Every observed contract is either matched or false, so the numerators of
/// contract precision and of the false-contract rate add up to their common
/// denominator; and no match count exceeds what it is counted against.
pub proof fn law_contract_counts_partition(golden: GoldenV1, observed: ObservedGraph)
    ensures
        ({
            let g = golden_contract_tuples(golden);
            let o = observed_contract_tuples(observed);
            &&& o.difference(g).len() + g.intersect(o).len() == o.len()
            &&& g.intersect(o).len() <= g.len()
            &&& g.intersect(o).len() <= o.len()
        }),
{
    let g = golden_contract_tuples(golden);
    let o = observed_contract_tuples(observed);
    vstd::seq_lib::seq_to_set_is_finite(golden_contract_list(golden));
    vstd::seq_lib::seq_to_set_is_finite(observed_contract_list(observed));
    vstd::set_lib::lemma_set_difference_len(o, g);
    assert(o.intersect(g) =~= g.intersect(o));
    vstd::set_lib::lemma_len_intersect(g, o);
    vstd::set_lib::lemma_len_intersect(o, g);
}

} // verus!
