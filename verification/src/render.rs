//! The text that the query commands print: `chirograph inspect` lists each
//! contract in id order with its clauses, their assessment, and the authority
//! claims over it; `contestations`, `evidence`, `authority` and `alignment`
//! list what the query engine answered, one entry after another.

use vstd::prelude::*;
use crate::cli::{alignment_state_name, alignment_state_text, revision_name, revision_text};
use crate::model::{facet_name, facet_name_spec, AlignmentState, ContractFacet, Revision};
use crate::order::{key_of, lemma_stable_sort_map, push_text_key, sort_by_key, stable_sort_by, text_key, SortKey};
use crate::text::{join, joined, owned, push_str, text_eq, views};

verus! {

#[derive(Debug, Clone, Copy, PartialEq, Eq)]
pub enum ClauseKind {
    Requirement,
    Guarantee,
    Invariant,
}

#[derive(Debug, Clone, Copy, PartialEq, Eq)]
pub enum ClauseStatus {
    Consistent,
    Contested,
}

#[derive(Debug, Clone, Copy, PartialEq, Eq)]
pub enum AuthorityBasis {
    ExplicitDeclaration,
    MechanicalEnforcement,
    ObservedBehavior,
    Documentation,
    Inference,
}

pub open spec fn clause_kind_text(k: ClauseKind) -> Seq<char> {
    match k {
        ClauseKind::Requirement => "requirement"@,
        ClauseKind::Guarantee => "guarantee"@,
        ClauseKind::Invariant => "invariant"@,
    }
}

pub fn clause_kind_name(k: ClauseKind) -> (r: &'static str)
    ensures
        r@ == clause_kind_text(k),
{
    match k {
        ClauseKind::Requirement => "requirement",
        ClauseKind::Guarantee => "guarantee",
        ClauseKind::Invariant => "invariant",
    }
}

pub open spec fn clause_status_text(s: ClauseStatus) -> Seq<char> {
    match s {
        ClauseStatus::Consistent => "CONSISTENT"@,
        ClauseStatus::Contested => "CONTESTED"@,
    }
}

pub fn clause_status_name(s: ClauseStatus) -> (r: &'static str)
    ensures
        r@ == clause_status_text(s),
{
    match s {
        ClauseStatus::Consistent => "CONSISTENT",
        ClauseStatus::Contested => "CONTESTED",
    }
}

pub open spec fn authority_basis_text(b: AuthorityBasis) -> Seq<char> {
    match b {
        AuthorityBasis::ExplicitDeclaration => "explicit_declaration"@,
        AuthorityBasis::MechanicalEnforcement => "mechanical_enforcement"@,
        AuthorityBasis::ObservedBehavior => "observed_behavior"@,
        AuthorityBasis::Documentation => "documentation"@,
        AuthorityBasis::Inference => "inference"@,
    }
}

pub fn authority_basis_name(b: AuthorityBasis) -> (r: &'static str)
    ensures
        r@ == authority_basis_text(b),
{
    match b {
        AuthorityBasis::ExplicitDeclaration => "explicit_declaration",
        AuthorityBasis::MechanicalEnforcement => "mechanical_enforcement",
        AuthorityBasis::ObservedBehavior => "observed_behavior",
        AuthorityBasis::Documentation => "documentation",
        AuthorityBasis::Inference => "inference",
    }
}

/// A contract of the graph.
#[derive(Debug, Clone, PartialEq, Eq)]
pub struct ContractEntry {
    pub id: String,
    pub name: String,
}

/// A clause of the graph with its assessment: whether it holds and which
/// representations support and contradict it.
#[derive(Debug, Clone, PartialEq, Eq)]
pub struct ClauseEntry {
    pub id: String,
    pub contract: String,
    pub facet: ContractFacet,
    pub kind: ClauseKind,
    pub statement: String,
    pub status: ClauseStatus,
    pub supporting: Vec<String>,
    pub contradicting: Vec<String>,
}

/// An authority claim of the graph.
#[derive(Debug, Clone, PartialEq, Eq)]
pub struct ClaimEntry {
    pub contract: String,
    pub facet: ContractFacet,
    pub representation: String,
    pub basis: AuthorityBasis,
}

impl SortKey for ContractEntry {
    open spec fn sort_key(&self) -> Seq<u32> {
        text_key(self.id@)
    }

    fn sort_key_exec(&self) -> (k: Vec<u32>) {
        let mut k: Vec<u32> = Vec::new();
        push_text_key(&mut k, self.id.as_str());
        k
    }
}

impl SortKey for ClauseEntry {
    open spec fn sort_key(&self) -> Seq<u32> {
        text_key(facet_name_spec(self.facet)) + text_key(self.id@)
    }

    fn sort_key_exec(&self) -> (k: Vec<u32>) {
        let mut k: Vec<u32> = Vec::new();
        push_text_key(&mut k, facet_name(self.facet));
        push_text_key(&mut k, self.id.as_str());
        k
    }
}

impl SortKey for ClaimEntry {
    open spec fn sort_key(&self) -> Seq<u32> {
        text_key(facet_name_spec(self.facet)) + text_key(self.representation@)
    }

    fn sort_key_exec(&self) -> (k: Vec<u32>) {
        let mut k: Vec<u32> = Vec::new();
        push_text_key(&mut k, facet_name(self.facet));
        push_text_key(&mut k, self.representation.as_str());
        k
    }
}

// ---- the text ----

pub open spec fn clause_text(c: ClauseEntry) -> Seq<char> {
    let head = "  "@ + facet_name_spec(c.facet) + " clause "@ + c.id@ + " ["@ + clause_kind_text(c.kind) + "] "@
        + clause_status_text(c.status) + "\n"@;
    let body = "    "@ + c.statement@ + "\n"@ + "    supports: "@ + joined(views(c.supporting@), ", "@) + "\n"@;
    let against = if c.contradicting@.len() == 0 {
        Seq::empty()
    } else {
        "    contradicts: "@ + joined(views(c.contradicting@), ", "@) + "\n"@
    };
    head + body + against
}

pub open spec fn claim_text(c: ClaimEntry) -> Seq<char> {
    "  authority "@ + facet_name_spec(c.facet) + ": "@ + c.representation@ + " ("@ + authority_basis_text(c.basis)
        + ")\n"@
}

pub open spec fn clauses_text(cs: Seq<ClauseEntry>) -> Seq<char>
    decreases cs.len(),
{
    if cs.len() == 0 {
        Seq::empty()
    } else {
        clauses_text(cs.drop_last()) + clause_text(cs.last())
    }
}

pub open spec fn claims_text(cs: Seq<ClaimEntry>) -> Seq<char>
    decreases cs.len(),
{
    if cs.len() == 0 {
        Seq::empty()
    } else {
        claims_text(cs.drop_last()) + claim_text(cs.last())
    }
}

pub open spec fn clause_of(id: Seq<char>) -> spec_fn(ClauseEntry) -> bool {
    |c: ClauseEntry| c.contract@ == id
}

pub open spec fn claim_of(id: Seq<char>) -> spec_fn(ClaimEntry) -> bool {
    |c: ClaimEntry| c.contract@ == id
}

/// One contract: its header, its clauses by facet name and id, and its
/// authority claims by facet name and representation.
pub open spec fn contract_text(c: ContractEntry, clauses: Seq<ClauseEntry>, claims: Seq<ClaimEntry>) -> Seq<char> {
    "contract "@ + c.id@ + " — "@ + c.name@ + "\n"@ + clauses_text(
        stable_sort_by(clauses.filter(clause_of(c.id@)), key_of::<ClauseEntry>()),
    ) + claims_text(stable_sort_by(claims.filter(claim_of(c.id@)), key_of::<ClaimEntry>()))
}

pub open spec fn contracts_text(cs: Seq<ContractEntry>, clauses: Seq<ClauseEntry>, claims: Seq<ClaimEntry>) -> Seq<char>
    decreases cs.len(),
{
    if cs.len() == 0 {
        Seq::empty()
    } else {
        contracts_text(cs.drop_last(), clauses, claims) + contract_text(cs.last(), clauses, claims)
    }
}

/// The rendering of a graph: its contracts in id order.
pub open spec fn graph_text(contracts: Seq<ContractEntry>, clauses: Seq<ClauseEntry>, claims: Seq<ClaimEntry>) -> Seq<char> {
    contracts_text(stable_sort_by(contracts, key_of::<ContractEntry>()), clauses, claims)
}

// ---- executable ----

fn push_clause(out: &mut String, c: &ClauseEntry)
    ensures
        final(out)@ == old(out)@ + clause_text(*c),
{
    let ghost start = out@;
    push_str(out, "  ");
    push_str(out, facet_name(c.facet));
    push_str(out, " clause ");
    push_str(out, c.id.as_str());
    push_str(out, " [");
    push_str(out, clause_kind_name(c.kind));
    push_str(out, "] ");
    push_str(out, clause_status_name(c.status));
    push_str(out, "\n    ");
    push_str(out, c.statement.as_str());
    push_str(out, "\n    supports: ");
    push_str(out, join(c.supporting.as_slice(), ", ").as_str());
    push_str(out, "\n");
    if c.contradicting.len() > 0 {
        push_str(out, "    contradicts: ");
        push_str(out, join(c.contradicting.as_slice(), ", ").as_str());
        push_str(out, "\n");
    }
    proof {
        reveal_strlit("\n    ");
        reveal_strlit("\n    supports: ");
        reveal_strlit("    ");
        reveal_strlit("\n");
        reveal_strlit("    supports: ");
    }
    assert(out@ =~= start + clause_text(*c));
}

fn push_claim(out: &mut String, c: &ClaimEntry)
    ensures
        final(out)@ == old(out)@ + claim_text(*c),
{
    let ghost start = out@;
    push_str(out, "  authority ");
    push_str(out, facet_name(c.facet));
    push_str(out, ": ");
    push_str(out, c.representation.as_str());
    push_str(out, " (");
    push_str(out, authority_basis_name(c.basis));
    push_str(out, ")\n");
    assert(out@ =~= start + claim_text(*c));
}

pub open spec fn clause_refs<'a>(s: Seq<&'a ClauseEntry>) -> Seq<ClauseEntry> {
    s.map_values(|x: &'a ClauseEntry| *x)
}

pub open spec fn claim_refs<'a>(s: Seq<&'a ClaimEntry>) -> Seq<ClaimEntry> {
    s.map_values(|x: &'a ClaimEntry| *x)
}

impl<'a> SortKey for &'a ClauseEntry {
    open spec fn sort_key(&self) -> Seq<u32> {
        text_key(facet_name_spec(self.facet)) + text_key(self.id@)
    }

    fn sort_key_exec(&self) -> (k: Vec<u32>) {
        let mut k: Vec<u32> = Vec::new();
        push_text_key(&mut k, facet_name(self.facet));
        push_text_key(&mut k, self.id.as_str());
        k
    }
}

impl<'a> SortKey for &'a ClaimEntry {
    open spec fn sort_key(&self) -> Seq<u32> {
        text_key(facet_name_spec(self.facet)) + text_key(self.representation@)
    }

    fn sort_key_exec(&self) -> (k: Vec<u32>) {
        let mut k: Vec<u32> = Vec::new();
        push_text_key(&mut k, facet_name(self.facet));
        push_text_key(&mut k, self.representation.as_str());
        k
    }
}

fn clauses_for<'a>(clauses: &'a Vec<ClauseEntry>, id: &str) -> (r: Vec<&'a ClauseEntry>)
    ensures
        clause_refs(r@) == clauses@.filter(clause_of(id@)),
{
    let mut r: Vec<&'a ClauseEntry> = Vec::new();
    let mut i: usize = 0;
    while i < clauses.len()
        invariant
            i <= clauses.len(),
            clause_refs(r@) == clauses@.take(i as int).filter(clause_of(id@)),
        decreases clauses.len() - i,
    {
        assert(clauses@.take(i + 1).drop_last() =~= clauses@.take(i as int));
        assert(clauses@.take(i + 1).last() == clauses@[i as int]);
        reveal(Seq::filter);
        let ghost p = clause_of(id@);
        let ghost prev = clauses@.take(i as int).filter(p);
        assert(clauses@.take(i + 1).filter(p) == if p(clauses@[i as int]) {
            prev.push(clauses@[i as int])
        } else {
            prev
        });
        if text_eq(clauses[i].contract.as_str(), id) {
            let ghost before = r@;
            r.push(&clauses[i]);
            assert(clause_refs(r@) =~= clause_refs(before).push(clauses@[i as int]));
        }
        i = i + 1;
    }
    assert(clauses@.take(clauses.len() as int) =~= clauses@);
    r
}

fn claims_for<'a>(claims: &'a Vec<ClaimEntry>, id: &str) -> (r: Vec<&'a ClaimEntry>)
    ensures
        claim_refs(r@) == claims@.filter(claim_of(id@)),
{
    let mut r: Vec<&'a ClaimEntry> = Vec::new();
    let mut i: usize = 0;
    while i < claims.len()
        invariant
            i <= claims.len(),
            claim_refs(r@) == claims@.take(i as int).filter(claim_of(id@)),
        decreases claims.len() - i,
    {
        assert(claims@.take(i + 1).drop_last() =~= claims@.take(i as int));
        assert(claims@.take(i + 1).last() == claims@[i as int]);
        reveal(Seq::filter);
        let ghost p = claim_of(id@);
        let ghost prev = claims@.take(i as int).filter(p);
        assert(claims@.take(i + 1).filter(p) == if p(claims@[i as int]) {
            prev.push(claims@[i as int])
        } else {
            prev
        });
        if text_eq(claims[i].contract.as_str(), id) {
            let ghost before = r@;
            r.push(&claims[i]);
            assert(claim_refs(r@) =~= claim_refs(before).push(claims@[i as int]));
        }
        i = i + 1;
    }
    assert(claims@.take(claims.len() as int) =~= claims@);
    r
}

fn push_contract(out: &mut String, c: &ContractEntry, clauses: &Vec<ClauseEntry>, claims: &Vec<ClaimEntry>)
    ensures
        final(out)@ == old(out)@ + contract_text(*c, clauses@, claims@),
{
    let ghost before = out@;
    push_str(out, "contract ");
    push_str(out, c.id.as_str());
    push_str(out, " — ");
    push_str(out, c.name.as_str());
    push_str(out, "\n");
    let found = clauses_for(clauses, c.id.as_str());
    let mine = sort_by_key(found);
    proof {
        lemma_stable_sort_map(found@, key_of::<&ClauseEntry>(), |x: &ClauseEntry| *x, key_of::<ClauseEntry>());
    }
    let ghost mv = clause_refs(mine@);
    let mut k: usize = 0;
    let ghost header = out@;
    while k < mine.len()
        invariant
            k <= mine@.len(),
            mv == clause_refs(mine@),
            out@ == header + clauses_text(mv.take(k as int)),
        decreases mine.len() - k,
    {
        push_clause(out, mine[k]);
        assert(mv.take(k + 1).drop_last() =~= mv.take(k as int));
        k = k + 1;
    }
    assert(mv.take(mine.len() as int) =~= mv);
    let owned_claims = claims_for(claims, c.id.as_str());
    let held = sort_by_key(owned_claims);
    proof {
        lemma_stable_sort_map(owned_claims@, key_of::<&ClaimEntry>(), |x: &ClaimEntry| *x, key_of::<ClaimEntry>());
    }
    let ghost hv = claim_refs(held@);
    let ghost middle = out@;
    let mut k: usize = 0;
    while k < held.len()
        invariant
            k <= held@.len(),
            hv == claim_refs(held@),
            out@ == middle + claims_text(hv.take(k as int)),
        decreases held.len() - k,
    {
        push_claim(out, held[k]);
        assert(hv.take(k + 1).drop_last() =~= hv.take(k as int));
        k = k + 1;
    }
    assert(hv.take(held.len() as int) =~= hv);
    assert(out@ =~= before + contract_text(*c, clauses@, claims@));
}

/// Renders the contracts of a graph with their clauses and authority claims.
pub fn render_graph(contracts: Vec<ContractEntry>, clauses: &Vec<ClauseEntry>, claims: &Vec<ClaimEntry>) -> (r: String)
    ensures
        r@ == graph_text(contracts@, clauses@, claims@),
{
    let ordered = sort_by_key(contracts);
    let mut out = String::new();
    let mut i: usize = 0;
    while i < ordered.len()
        invariant
            i <= ordered@.len(),
            out@ == contracts_text(ordered@.take(i as int), clauses@, claims@),
        decreases ordered.len() - i,
    {
        let c = &ordered[i];
        let ghost before = out@;
        push_contract(&mut out, c, clauses, claims);
        assert(ordered@.take(i + 1).drop_last() =~= ordered@.take(i as int));
        assert(out@ =~= before + contract_text(*c, clauses@, claims@));
        i = i + 1;
    }
    assert(ordered@.take(ordered.len() as int) =~= ordered@);
    out
}

// ---- the other query commands ----

/// The texts of the entries, one after another.
pub open spec fn concat_map<T>(s: Seq<T>, f: spec_fn(T) -> Seq<char>) -> Seq<char>
    decreases s.len(),
{
    if s.len() == 0 {
        Seq::empty()
    } else {
        concat_map(s.drop_last(), f) + f(s.last())
    }
}

proof fn lemma_concat_map_step<T>(s: Seq<T>, k: int, f: spec_fn(T) -> Seq<char>)
    requires
        0 <= k < s.len(),
    ensures
        concat_map(s.take(k + 1), f) == concat_map(s.take(k), f) + f(s[k]),
{
    assert(s.take(k + 1).drop_last() =~= s.take(k));
}

/// One contested clause: its facet, id, kind and status, its statement, and
/// the representations on either side.
pub open spec fn contested_text(c: ClauseEntry) -> Seq<char> {
    facet_name_spec(c.facet) + " clause "@ + c.id@ + " ["@ + clause_kind_text(c.kind) + "] "@ + clause_status_text(
        c.status,
    ) + "\n"@ + "  "@ + c.statement@ + "\n"@ + "  supports: "@ + joined(views(c.supporting@), ", "@) + "\n"@
        + "  contradicts: "@ + joined(views(c.contradicting@), ", "@) + "\n"@
}

pub open spec fn contested_text_fn() -> spec_fn(ClauseEntry) -> Seq<char> {
    |c: ClauseEntry| contested_text(c)
}

fn push_contested(out: &mut String, c: &ClauseEntry)
    ensures
        final(out)@ == old(out)@ + contested_text(*c),
{
    let ghost start = out@;
    push_str(out, facet_name(c.facet));
    push_str(out, " clause ");
    push_str(out, c.id.as_str());
    push_str(out, " [");
    push_str(out, clause_kind_name(c.kind));
    push_str(out, "] ");
    push_str(out, clause_status_name(c.status));
    push_str(out, "\n  ");
    push_str(out, c.statement.as_str());
    push_str(out, "\n  supports: ");
    push_str(out, join(c.supporting.as_slice(), ", ").as_str());
    push_str(out, "\n  contradicts: ");
    push_str(out, join(c.contradicting.as_slice(), ", ").as_str());
    push_str(out, "\n");
    proof {
        reveal_strlit("\n  ");
        reveal_strlit("\n  supports: ");
        reveal_strlit("\n  contradicts: ");
        reveal_strlit("  ");
        reveal_strlit("\n");
        reveal_strlit("  supports: ");
        reveal_strlit("  contradicts: ");
    }
    assert(out@ =~= start + contested_text(*c));
}

/// Lists the contested clauses in the order given.
pub fn render_contestations(rows: &Vec<ClauseEntry>) -> (r: String)
    ensures
        r@ == concat_map(rows@, contested_text_fn()),
{
    let mut out = String::new();
    let mut k: usize = 0;
    while k < rows.len()
        invariant
            k <= rows@.len(),
            out@ == concat_map(rows@.take(k as int), contested_text_fn()),
        decreases rows.len() - k,
    {
        push_contested(&mut out, &rows[k]);
        proof {
            lemma_concat_map_step(rows@, k as int, contested_text_fn());
        }
        k = k + 1;
    }
    assert(rows@.take(rows@.len() as int) =~= rows@);
    out
}

/// An observation in the evidence closure of a contract.
pub struct EvidenceEntry {
    pub id: String,
    pub source: String,
    pub revision: Revision,
    pub locator: String,
    pub fact: String,
}

pub open spec fn evidence_text(e: EvidenceEntry) -> Seq<char> {
    "  "@ + e.id@ + " source="@ + e.source@ + " revision="@ + revision_text(e.revision@) + " locator="@ + e.locator@
        + "\n"@ + "    "@ + e.fact@ + "\n"@
}

pub open spec fn evidence_text_fn() -> spec_fn(EvidenceEntry) -> Seq<char> {
    |e: EvidenceEntry| evidence_text(e)
}

fn push_evidence(out: &mut String, e: &EvidenceEntry)
    ensures
        final(out)@ == old(out)@ + evidence_text(*e),
{
    let ghost start = out@;
    push_str(out, "  ");
    push_str(out, e.id.as_str());
    push_str(out, " source=");
    push_str(out, e.source.as_str());
    push_str(out, " revision=");
    push_str(out, revision_name(&e.revision).as_str());
    push_str(out, " locator=");
    push_str(out, e.locator.as_str());
    push_str(out, "\n    ");
    push_str(out, e.fact.as_str());
    push_str(out, "\n");
    proof {
        reveal_strlit("\n    ");
        reveal_strlit("\n");
        reveal_strlit("    ");
    }
    assert(out@ =~= start + evidence_text(*e));
}

/// The evidence of a contract: a header, then each observation with its
/// source, revision, locator and fact.
pub fn render_evidence(contract: &str, rows: &Vec<EvidenceEntry>) -> (r: String)
    ensures
        r@ == "evidence "@ + contract@ + "\n"@ + concat_map(rows@, evidence_text_fn()),
{
    let mut out = owned("evidence ");
    push_str(&mut out, contract);
    push_str(&mut out, "\n");
    let ghost header = out@;
    let mut k: usize = 0;
    while k < rows.len()
        invariant
            k <= rows@.len(),
            out@ == header + concat_map(rows@.take(k as int), evidence_text_fn()),
        decreases rows.len() - k,
    {
        let ghost before = out@;
        push_evidence(&mut out, &rows[k]);
        proof {
            lemma_concat_map_step(rows@, k as int, evidence_text_fn());
        }
        assert(out@ =~= header + concat_map(rows@.take(k + 1), evidence_text_fn()));
        k = k + 1;
    }
    assert(rows@.take(rows@.len() as int) =~= rows@);
    out
}

/// An authority claim over a contract facet, with its evidence.
pub struct AuthorityEntry {
    pub representation: String,
    pub basis: AuthorityBasis,
    pub evidence: Vec<String>,
}

pub open spec fn authority_text(a: AuthorityEntry) -> Seq<char> {
    "  "@ + a.representation@ + " ("@ + authority_basis_text(a.basis) + ") evidence="@ + joined(views(a.evidence@), ", "@)
        + "\n"@
}

pub open spec fn authority_text_fn() -> spec_fn(AuthorityEntry) -> Seq<char> {
    |a: AuthorityEntry| authority_text(a)
}

/// The authority over a facet of a contract: a header, then every claim with
/// its basis and evidence.
pub fn render_authority(contract: &str, facet: ContractFacet, rows: &Vec<AuthorityEntry>) -> (r: String)
    ensures
        r@ == "authority "@ + contract@ + " "@ + facet_name_spec(facet) + "\n"@ + concat_map(rows@, authority_text_fn()),
{
    let mut out = owned("authority ");
    push_str(&mut out, contract);
    push_str(&mut out, " ");
    push_str(&mut out, facet_name(facet));
    push_str(&mut out, "\n");
    let ghost header = out@;
    let mut k: usize = 0;
    while k < rows.len()
        invariant
            k <= rows@.len(),
            out@ == header + concat_map(rows@.take(k as int), authority_text_fn()),
        decreases rows.len() - k,
    {
        let a = &rows[k];
        let ghost before = out@;
        push_str(&mut out, "  ");
        push_str(&mut out, a.representation.as_str());
        push_str(&mut out, " (");
        push_str(&mut out, authority_basis_name(a.basis));
        push_str(&mut out, ") evidence=");
        push_str(&mut out, join(a.evidence.as_slice(), ", ").as_str());
        push_str(&mut out, "\n");
        proof {
            lemma_concat_map_step(rows@, k as int, authority_text_fn());
        }
        assert(out@ =~= before + authority_text(*a));
        k = k + 1;
    }
    assert(rows@.take(rows@.len() as int) =~= rows@);
    out
}

/// A recorded alignment of a representation to a contract facet.
pub struct AlignmentEntry {
    pub facet: ContractFacet,
    pub contract: String,
    pub state: AlignmentState,
    pub evidence: Vec<String>,
}

pub open spec fn alignment_text(a: AlignmentEntry) -> Seq<char> {
    "  "@ + facet_name_spec(a.facet) + " "@ + a.contract@ + " "@ + alignment_state_text(a.state) + " evidence="@ + joined(
        views(a.evidence@),
        ", "@,
    ) + "\n"@
}

pub open spec fn alignment_text_fn() -> spec_fn(AlignmentEntry) -> Seq<char> {
    |a: AlignmentEntry| alignment_text(a)
}

/// The recorded alignments of a representation: a header, then each claim
/// with its facet, contract, state and evidence.
pub fn render_alignment(representation: &str, rows: &Vec<AlignmentEntry>) -> (r: String)
    ensures
        r@ == "alignment "@ + representation@ + "\n"@ + concat_map(rows@, alignment_text_fn()),
{
    let mut out = owned("alignment ");
    push_str(&mut out, representation);
    push_str(&mut out, "\n");
    let ghost header = out@;
    let mut k: usize = 0;
    while k < rows.len()
        invariant
            k <= rows@.len(),
            out@ == header + concat_map(rows@.take(k as int), alignment_text_fn()),
        decreases rows.len() - k,
    {
        let a = &rows[k];
        let ghost before = out@;
        push_str(&mut out, "  ");
        push_str(&mut out, facet_name(a.facet));
        push_str(&mut out, " ");
        push_str(&mut out, a.contract.as_str());
        push_str(&mut out, " ");
        push_str(&mut out, alignment_state_name(a.state));
        push_str(&mut out, " evidence=");
        push_str(&mut out, join(a.evidence.as_slice(), ", ").as_str());
        push_str(&mut out, "\n");
        proof {
            lemma_concat_map_step(rows@, k as int, alignment_text_fn());
        }
        assert(out@ =~= before + alignment_text(*a));
        k = k + 1;
    }
    assert(rows@.take(rows@.len() as int) =~= rows@);
    out
}

} // verus!
