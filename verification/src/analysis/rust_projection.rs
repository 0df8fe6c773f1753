//! Representation candidates from Rust source: serde-serialized field paths that
//! end in enums with a closed value set.
//!
//! Every struct that no other struct's field refers to is a root. From a root,
//! each serialized field whose type names exactly one declaration extends the
//! path: a struct is walked further (each struct once per path), an enum whose
//! variants all have serialized names becomes a candidate. A struct whose only
//! field is unnamed and names exactly one struct is a transparent wrapper: that
//! struct is walked in its place, on the same path.

use vstd::prelude::*;
use crate::analysis::candidate::{
    all_wf, candidate_key_fn, candidate_problem, candidate_view_of, candidate_views, evidence_views,
    first_unclean, normalize_candidates, valid_path, CandidateEvidence, CandidateMechanism,
    CandidateView, EvidenceView, RepresentationCandidate, SemanticPath,
};
use crate::analysis::context::AnalysisSourceContext;
use crate::analysis::error::{AnalysisError, AnalysisErrorView};
use crate::analysis::rust_facts::{
    collect_declarations, decls, decls_upto, enum_closed_values, enum_values, fact_views,
    field_target, first_argument, first_serde_argument, full_container, full_container_of, ints,
    leading, leading_attributes, members, members_of, qualified, serialized, serialized_name,
    unique_field_target, FactView, RustExtraction, RustFact, RustFactKind,
};
use crate::json::{decimal, push_decimal};
use crate::model::{clone_revision, ContractFacet, RepresentationKind, RevisionView};
use crate::order::{
    ascending_by, ascending_of, dedup_seq, key_of, lemma_ascending_unique,
    lemma_sorted_texts_ascending, lemma_stable_sort_map_on, sort_by_key, sorted_texts,
    stable_sort_by, text_key, text_key_fn, SortKey,
};
use crate::text::{
    clone_texts, is_clean, join, joined, owned, push_str, string_of, text_is_clean, views,
};

verus! {

/// How many entries are `false`.
pub open spec fn count_false(s: Seq<bool>) -> nat
    decreases s.len(),
{
    if s.len() == 0 {
        0
    } else {
        count_false(s.drop_last()) + if s.last() { 0nat } else { 1nat }
    }
}

pub proof fn lemma_count_false_update(s: Seq<bool>, i: int)
    requires
        0 <= i < s.len(),
        !s[i],
    ensures
        count_false(s.update(i, true)) < count_false(s),
    decreases s.len(),
{
    let u = s.update(i, true);
    if i == s.len() - 1 {
        assert(u.drop_last() =~= s.drop_last());
    } else {
        assert(u.drop_last() =~= s.drop_last().update(i, true));
        lemma_count_false_update(s.drop_last(), i);
    }
}

/// `locator#bytes=start-end` for a fact.
pub open spec fn span_locator(locator: Seq<char>, f: FactView) -> Seq<char> {
    locator + "#bytes="@ + decimal(f.start as nat) + "-"@ + decimal(f.end as nat)
}

pub open spec fn rust_mechanisms() -> Seq<CandidateMechanism> {
    seq![
        CandidateMechanism::RustSerializedField,
        CandidateMechanism::RustTypeReference,
        CandidateMechanism::RustClosedValueSet,
    ]
}

/// The candidate of an enum reached at `path`.
pub open spec fn rust_candidate(
    identity: Seq<char>,
    locator: Seq<char>,
    path: Seq<Seq<char>>,
    values: Seq<Seq<char>>,
    evidence: Seq<EvidenceView>,
) -> Result<Seq<CandidateView>, AnalysisErrorView> {
    if !valid_path(path) {
        Err(AnalysisErrorView::InvalidSemanticPath(first_unclean(path)->Some_0))
    } else {
        match candidate_problem(identity, locator, seq![ContractFacet::Structure], Some(values), rust_mechanisms(), evidence) {
            Some(m) => Err(AnalysisErrorView::InvalidCandidate(m)),
            None => Ok(
                seq![
                    candidate_view_of(
                        RepresentationKind::SourceCode,
                        identity,
                        locator,
                        seq![ContractFacet::Structure],
                        path,
                        Some(values),
                        rust_mechanisms(),
                        evidence,
                    ),
                ],
            ),
        }
    }
}

/// The `rename_all` rule of a declaration.
pub open spec fn rename_all(fs: Seq<FactView>, bytes: Seq<u8>, d: FactView) -> Option<Seq<char>> {
    first_argument(fs, leading(fs, bytes, d), "rename_all"@)
}

/// Walks the struct declared at position `d` of the declaration list; `active`
/// marks the structs on the current path.
pub open spec fn struct_walk(
    fs: Seq<FactView>,
    ds: Seq<int>,
    bytes: Seq<u8>,
    source: Seq<char>,
    revision: RevisionView,
    locator: Seq<char>,
    d: int,
    path: Seq<Seq<char>>,
    evidence: Seq<EvidenceView>,
    active: Seq<bool>,
) -> Result<Seq<CandidateView>, AnalysisErrorView>
    decreases count_false(active), 0int, 0int,
{
    if d < 0 || d >= active.len() || active[d] || d >= ds.len() {
        Ok(Seq::empty())
    } else {
        let marked = active.update(d, true);
        proof {
            lemma_count_false_update(active, d);
        }
        let decl = fs[ds[d]];
        let fields = members(fs, decl, RustFactKind::Field);
        if fields.len() == 1 && fs[fields[0]].name is None {
            match field_target(fs, ds, fs[fields[0]]) {
                Some(t) => if fs[ds[t]].kind == RustFactKind::Struct {
                    struct_walk(
                        fs,
                        ds,
                        bytes,
                        source,
                        revision,
                        locator,
                        t,
                        path,
                        evidence.push(
                            EvidenceView {
                                source,
                                revision,
                                locator: span_locator(locator, fs[fields[0]]),
                                fact: wrapper_text(qualified(decl), qualified(fs[ds[t]])),
                            },
                        ),
                        marked,
                    )
                } else {
                    Ok(Seq::empty())
                },
                None => Ok(Seq::empty()),
            }
        } else {
            fields_walk(
                fs,
                ds,
                bytes,
                source,
                revision,
                locator,
                rename_all(fs, bytes, decl),
                fields,
                fields.len() as int,
                path,
                evidence,
                marked,
            )
        }
    }
}

/// The evidence that a struct is walked through a transparent wrapper.
pub open spec fn wrapper_text(wrapper: Seq<char>, inner: Seq<char>) -> Seq<char> {
    "transparent wrapper "@ + wrapper + " over "@ + inner
}

/// Walks the first `n` fields of a struct.
pub open spec fn fields_walk(
    fs: Seq<FactView>,
    ds: Seq<int>,
    bytes: Seq<u8>,
    source: Seq<char>,
    revision: RevisionView,
    locator: Seq<char>,
    rule: Option<Seq<char>>,
    fields: Seq<int>,
    n: int,
    path: Seq<Seq<char>>,
    evidence: Seq<EvidenceView>,
    active: Seq<bool>,
) -> Result<Seq<CandidateView>, AnalysisErrorView>
    decreases count_false(active), 1int, n,
{
    if n <= 0 || n > fields.len() {
        Ok(Seq::empty())
    } else {
        match fields_walk(fs, ds, bytes, source, revision, locator, rule, fields, n - 1, path, evidence, active) {
            Err(e) => Err(e),
            Ok(cs) => {
                let f = fs[fields[n - 1]];
                let step: Result<Seq<CandidateView>, AnalysisErrorView> = match f.name {
                    None => Ok(Seq::empty()),
                    Some(fname) => match serialized(fs, fname, leading(fs, bytes, f), rule) {
                        None => Ok(Seq::empty()),
                        Some(ser) => match field_target(fs, ds, f) {
                            None => Ok(Seq::empty()),
                            Some(t) => {
                                let target = fs[ds[t]];
                                let next_path = path.push(ser);
                                let ev = evidence.push(
                                    EvidenceView {
                                        source,
                                        revision,
                                        locator: span_locator(locator, f),
                                        fact: "serialized field "@ + fname + " as "@ + ser
                                            + " with unique type edge to "@ + qualified(target),
                                    },
                                );
                                if target.kind == RustFactKind::Struct {
                                    struct_walk(fs, ds, bytes, source, revision, locator, t, next_path, ev, active)
                                } else if target.kind == RustFactKind::Enum {
                                    match enum_values(fs, bytes, target) {
                                        None => Ok(Seq::empty()),
                                        Some(values) => rust_candidate(
                                            qualified(target),
                                            locator,
                                            next_path,
                                            values,
                                            ev.push(
                                                EvidenceView {
                                                    source,
                                                    revision,
                                                    locator: span_locator(locator, target),
                                                    fact: "closed serialized enum ["@ + joined(
                                                        ascending_of(values.to_set(), text_key_fn()),
                                                        ","@,
                                                    ) + "]"@,
                                                },
                                            ),
                                        ),
                                    }
                                } else {
                                    Ok(Seq::empty())
                                }
                            },
                        },
                    },
                };
                match step {
                    Err(e) => Err(e),
                    Ok(more) => Ok(cs + more),
                }
            },
        }
    }
}

/// The declarations that some field of some struct refers to, among the first
/// `k` declarations' fields.
pub open spec fn referenced_upto(fs: Seq<FactView>, ds: Seq<int>, k: int) -> Set<int>
    decreases k,
{
    if k <= 0 || k > ds.len() {
        Set::empty()
    } else if fs[ds[k - 1]].kind == RustFactKind::Struct {
        let fields = members(fs, fs[ds[k - 1]], RustFactKind::Field);
        referenced_upto(fs, ds, k - 1) + targets_upto(fs, ds, fields, fields.len() as int)
    } else {
        referenced_upto(fs, ds, k - 1)
    }
}

/// The declarations that the first `j` fields refer to.
pub open spec fn targets_upto(fs: Seq<FactView>, ds: Seq<int>, fields: Seq<int>, j: int) -> Set<int>
    decreases j,
{
    if j <= 0 || j > fields.len() {
        Set::empty()
    } else {
        targets_upto(fs, ds, fields, j - 1) + match field_target(fs, ds, fs[fields[j - 1]]) {
            Some(t) => set![t],
            None => Set::empty(),
        }
    }
}

/// The structs, below `n`, that no field refers to, in declaration order.
pub open spec fn roots_upto(fs: Seq<FactView>, ds: Seq<int>, refd: Set<int>, n: int) -> Seq<int>
    decreases n,
{
    if n <= 0 || n > ds.len() {
        Seq::empty()
    } else if fs[ds[n - 1]].kind == RustFactKind::Struct && !refd.contains(n - 1) {
        roots_upto(fs, ds, refd, n - 1).push(n - 1)
    } else {
        roots_upto(fs, ds, refd, n - 1)
    }
}

pub open spec fn root_key_fn(fs: Seq<FactView>, ds: Seq<int>) -> spec_fn(int) -> Seq<u32> {
    |k: int| text_key(qualified(fs[ds[k]]))
}

/// The roots, ordered by qualified identity.
pub open spec fn roots(fs: Seq<FactView>, ds: Seq<int>) -> Seq<int> {
    stable_sort_by(
        roots_upto(fs, ds, referenced_upto(fs, ds, ds.len() as int), ds.len() as int),
        root_key_fn(fs, ds),
    )
}

/// The walks of the first `n` roots, each with nothing active.
pub open spec fn roots_walk(
    fs: Seq<FactView>,
    ds: Seq<int>,
    bytes: Seq<u8>,
    source: Seq<char>,
    revision: RevisionView,
    locator: Seq<char>,
    rs: Seq<int>,
    n: int,
) -> Result<Seq<CandidateView>, AnalysisErrorView>
    decreases n,
{
    if n <= 0 || n > rs.len() {
        Ok(Seq::empty())
    } else {
        match roots_walk(fs, ds, bytes, source, revision, locator, rs, n - 1) {
            Err(e) => Err(e),
            Ok(cs) => match struct_walk(
                fs,
                ds,
                bytes,
                source,
                revision,
                locator,
                rs[n - 1],
                Seq::empty(),
                Seq::empty(),
                Seq::new(ds.len(), |i: int| false),
            ) {
                Err(e) => Err(e),
                Ok(more) => Ok(cs + more),
            },
        }
    }
}

/// The facts of a file and its parse diagnostics, or the extractor's message.
pub open spec fn extraction_view(x: Result<RustExtraction, String>) -> Result<(Seq<FactView>, nat), Seq<char>> {
    match x {
        Ok(e) => Ok((fact_views(e.facts@), e.diagnostics as nat)),
        Err(m) => Err(m@),
    }
}

/// The candidates of a Rust file, ordered by path and identity, without repeats.
pub open spec fn rust_candidates(
    source: Seq<char>,
    revision: RevisionView,
    locator: Seq<char>,
    bytes: Seq<u8>,
    extraction: Result<(Seq<FactView>, nat), Seq<char>>,
) -> Result<Seq<CandidateView>, AnalysisErrorView> {
    if !is_clean(locator) {
        Err(AnalysisErrorView::InvalidRustProjection("Rust locator must be nonempty and trimmed"@))
    } else {
        match extraction {
            Err(m) => Err(AnalysisErrorView::InvalidRustProjection("Rust source "@ + locator + ": "@ + m)),
            Ok((fs, diagnostics)) => if diagnostics > 0 {
                Err(
                    AnalysisErrorView::InvalidRustProjection(
                        "Rust source "@ + locator + " has "@ + decimal(diagnostics) + " parse diagnostics"@,
                    ),
                )
            } else {
                let ds = decls(fs);
                let rs = roots(fs, ds);
                match roots_walk(fs, ds, bytes, source, revision, locator, rs, rs.len() as int) {
                    Err(e) => Err(e),
                    Ok(cs) => Ok(dedup_seq(stable_sort_by(cs, candidate_key_fn()))),
                }
            },
        }
    }
}

// ---- executable parts ----

/// Declarations name themselves.
proof fn lemma_decls_named(fs: Seq<FactView>, n: int)
    ensures
        forall|k: int| 0 <= k < decls_upto(fs, n).len() ==> 0 <= #[trigger] decls_upto(fs, n)[k] < fs.len() && fs[decls_upto(fs, n)[k]].name is Some,
    decreases n,
{
    if 0 < n <= fs.len() {
        lemma_decls_named(fs, n - 1);
    }
}

/// The declaration facts the walk reads: in range and named.
pub open spec fn decls_ok(facts: Seq<RustFact>, ds: Seq<usize>) -> bool {
    forall|k: int| 0 <= k < ds.len() ==> (#[trigger] ds[k]) < facts.len() && facts[ds[k] as int].name is Some
}

fn span_locator_exec(locator: &str, f: &RustFact) -> (r: String)
    ensures
        r@ == span_locator(locator@, f@),
{
    let mut r = owned(locator);
    push_str(&mut r, "#bytes=");
    push_decimal(&mut r, f.span.start_byte);
    push_str(&mut r, "-");
    push_decimal(&mut r, f.span.end_byte);
    r
}

fn qualified_exec(f: &RustFact) -> (r: String)
    requires
        f.name is Some,
    ensures
        r@ == qualified(f@),
{
    let full = full_container_of(f);
    join(full.as_slice(), "::")
}

fn with_evidence(v: &Vec<CandidateEvidence>, e: CandidateEvidence) -> (r: Vec<CandidateEvidence>)
    ensures
        evidence_views(r@) == evidence_views(v@).push(e@),
{
    let mut r = crate::analysis::candidate::clone_evidence_list(v);
    let ghost before = r@;
    r.push(e);
    assert(evidence_views(r@) =~= evidence_views(before).push(e@));
    r
}

fn with_name(v: &Vec<String>, t: &Vec<char>) -> (r: Vec<String>)
    ensures
        views(r@) == views(v@).push(t@),
{
    let mut r = clone_texts(v);
    let ghost before = r@;
    r.push(string_of(t.as_slice()));
    assert(views(r@) =~= views(before).push(t@));
    r
}

fn strings_of(v: &Vec<Vec<char>>) -> (r: Vec<String>)
    ensures
        views(r@) == v@.map_values(|x: Vec<char>| x@),
{
    let mut r: Vec<String> = Vec::new();
    let mut i: usize = 0;
    while i < v.len()
        invariant
            i <= v.len(),
            r@.len() == i,
            forall|k: int| 0 <= k < i ==> (#[trigger] r@[k])@ == v@[k]@,
        decreases v.len() - i,
    {
        r.push(string_of(v[i].as_slice()));
        i = i + 1;
    }
    assert(views(r@) =~= v@.map_values(|x: Vec<char>| x@));
    r
}

proof fn lemma_fields_walk_err(
    fs: Seq<FactView>,
    ds: Seq<int>,
    bytes: Seq<u8>,
    source: Seq<char>,
    revision: RevisionView,
    locator: Seq<char>,
    rule: Option<Seq<char>>,
    fields: Seq<int>,
    k: int,
    n: int,
    path: Seq<Seq<char>>,
    evidence: Seq<EvidenceView>,
    active: Seq<bool>,
)
    requires
        0 <= k <= n <= fields.len(),
        fields_walk(fs, ds, bytes, source, revision, locator, rule, fields, k, path, evidence, active) is Err,
    ensures
        fields_walk(fs, ds, bytes, source, revision, locator, rule, fields, n, path, evidence, active)
            == fields_walk(fs, ds, bytes, source, revision, locator, rule, fields, k, path, evidence, active),
    decreases n - k,
{
    if n > k {
        lemma_fields_walk_err(fs, ds, bytes, source, revision, locator, rule, fields, k, n - 1, path, evidence, active);
    }
}

#[verifier::rlimit(60)]
#[verifier::loop_isolation(false)]
fn walk_struct(
    facts: &Vec<RustFact>,
    ds: &Vec<usize>,
    bytes: &[u8],
    context: &AnalysisSourceContext,
    locator: &str,
    d: usize,
    path: &Vec<String>,
    evidence: &Vec<CandidateEvidence>,
    active: &Vec<bool>,
    candidates: &mut Vec<RepresentationCandidate>,
) -> (r: Result<(), AnalysisError>)
    requires
        decls_ok(facts@, ds@),
        active@.len() == ds@.len(),
        all_wf(old(candidates)@),
    ensures
        all_wf(final(candidates)@),
        match struct_walk(
            fact_views(facts@),
            ints(ds@),
            bytes@,
            context.source@,
            context.revision@,
            locator@,
            d as int,
            views(path@),
            evidence_views(evidence@),
            active@,
        ) {
            Ok(cs) => r is Ok && candidate_views(final(candidates)@) == candidate_views(old(candidates)@) + cs,
            Err(e) => r matches Err(x) && x@ == e,
        },
    decreases count_false(active@), 0int, 0int,
{
    let ghost fs = fact_views(facts@);
    let ghost dv = ints(ds@);
    let ghost start = candidates@;
    if d >= active.len() || active[d] || d >= ds.len() {
        assert(candidate_views(candidates@) =~= candidate_views(start) + Seq::<CandidateView>::empty());
        return Ok(());
    }
    let mut marked = crate::acquisition::copy_flags(active);
    marked.set(d, true);
    proof {
        assert(marked@ =~= active@.update(d as int, true));
        lemma_count_false_update(active@, d as int);
    }
    let decl = &facts[ds[d]];
    assert(fs[dv[d as int]] == decl@);
    let attrs = leading_attributes(facts, decl, bytes);
    let rule = first_serde_argument(facts, &attrs, "rename_all");
    let ghost rule_view = if rule is Some { Some(rule->Some_0@) } else { None::<Seq<char>> };
    assert(rule_view == rename_all(fs, bytes@, decl@));
    let fields = members_of(facts, decl, RustFactKind::Field);
    let ghost fv = ints(fields@);
    if fields.len() == 1 && facts[fields[0]].name.is_none() {
        let f = &facts[fields[0]];
        assert(fs[fv[0]] == f@);
        match unique_field_target(facts, ds, f) {
            Some(t) => {
                let target = &facts[ds[t]];
                assert(fs[dv[t as int]] == target@);
                if target.kind == RustFactKind::Struct {
                    let wrapper_identity = qualified_exec(decl);
                    let inner_identity = qualified_exec(target);
                    let mut fact = owned("transparent wrapper ");
                    push_str(&mut fact, wrapper_identity.as_str());
                    push_str(&mut fact, " over ");
                    push_str(&mut fact, inner_identity.as_str());
                    let ev = with_evidence(evidence, CandidateEvidence {
                        source: context.source.clone(),
                        revision: clone_revision(&context.revision),
                        locator: span_locator_exec(locator, f),
                        fact,
                    });
                    return walk_struct(facts, ds, bytes, context, locator, t, path, &ev, &marked, candidates);
                } else {
                    assert(candidate_views(candidates@) =~= candidate_views(start) + Seq::<CandidateView>::empty());
                    return Ok(());
                }
            },
            None => {
                assert(candidate_views(candidates@) =~= candidate_views(start) + Seq::<CandidateView>::empty());
                return Ok(());
            },
        }
    }
    let mut i: usize = 0;
    while i < fields.len()
        invariant
            i <= fields.len(),
            all_wf(candidates@),
            fv == ints(fields@),
            forall|q: int| 0 <= q < fields@.len() ==> (#[trigger] fields@[q]) < facts@.len(),
            fields_walk(fs, dv, bytes@, context.source@, context.revision@, locator@, rule_view, fv, i as int, views(path@), evidence_views(evidence@), marked@)
                matches Ok(cs) && candidate_views(candidates@) == candidate_views(start) + cs,
        decreases fields.len() - i,
    {
        let f = &facts[fields[i]];
        assert(fs[fv[i as int]] == f@);
        let ghost prior = fields_walk(fs, dv, bytes@, context.source@, context.revision@, locator@, rule_view, fv, i as int, views(path@), evidence_views(evidence@), marked@)->Ok_0;
        let ghost mid = candidates@;
        let step: Result<(), AnalysisError> = match &f.name {
            None => Ok(()),
            Some(fname) => {
                let field_attrs = leading_attributes(facts, f, bytes);
                match serialized_name(facts, fname.as_str(), &field_attrs, &rule) {
                    None => Ok(()),
                    Some(ser) => match unique_field_target(facts, ds, f) {
                        None => Ok(()),
                        Some(t) => {
                            let target = &facts[ds[t]];
                            assert(fs[dv[t as int]] == target@);
                            let next_path = with_name(path, &ser);
                            let ser_text = string_of(ser.as_slice());
                            let target_identity = qualified_exec(target);
                            let mut fact = owned("serialized field ");
                            push_str(&mut fact, fname.as_str());
                            push_str(&mut fact, " as ");
                            push_str(&mut fact, ser_text.as_str());
                            push_str(&mut fact, " with unique type edge to ");
                            push_str(&mut fact, target_identity.as_str());
                            let ev = with_evidence(evidence, CandidateEvidence {
                                source: context.source.clone(),
                                revision: clone_revision(&context.revision),
                                locator: span_locator_exec(locator, f),
                                fact,
                            });
                            if target.kind == RustFactKind::Struct {
                                walk_struct(facts, ds, bytes, context, locator, t, &next_path, &ev, &marked, candidates)
                            } else if target.kind == RustFactKind::Enum {
                                match enum_closed_values(facts, target, bytes) {
                                    None => Ok(()),
                                    Some(values) => {
                                        let value_texts = strings_of(&values);
                                        let ghost vals = views(value_texts@);
                                        let sorted = sorted_texts(clone_texts(&value_texts));
                                        proof {
                                            lemma_sorted_texts_ascending(sorted@);
                                            assert(views(sorted@) =~= sorted@.map_values(|s: String| s@));
                                            assert(views(sorted@).to_set() =~= vals.to_set());
                                            lemma_ascending_unique(views(sorted@), ascending_of(vals.to_set(), text_key_fn()), text_key_fn());
                                        }
                                        let listed = join(sorted.as_slice(), ",");
                                        let mut enum_fact = owned("closed serialized enum [");
                                        push_str(&mut enum_fact, listed.as_str());
                                        push_str(&mut enum_fact, "]");
                                        let ev2 = with_evidence(&ev, CandidateEvidence {
                                            source: context.source.clone(),
                                            revision: clone_revision(&context.revision),
                                            locator: span_locator_exec(locator, target),
                                            fact: enum_fact,
                                        });
                                        match SemanticPath::new(next_path) {
                                            Err(e) => Err(e),
                                            Ok(semantic_path) => {
                                                let facets = vec![ContractFacet::Structure];
                                                assert(facets@ == seq![ContractFacet::Structure]);
                                                let mechanisms = vec![
                                                    CandidateMechanism::RustSerializedField,
                                                    CandidateMechanism::RustTypeReference,
                                                    CandidateMechanism::RustClosedValueSet,
                                                ];
                                                assert(mechanisms@ == rust_mechanisms());
                                                match RepresentationCandidate::new(
                                                    RepresentationKind::SourceCode,
                                                    target_identity,
                                                    owned(locator),
                                                    facets,
                                                    semantic_path,
                                                    Some(value_texts),
                                                    mechanisms,
                                                    ev2,
                                                ) {
                                                    Err(e) => Err(e),
                                                    Ok(c) => {
                                                        let ghost before = candidates@;
                                                        candidates.push(c);
                                                        assert(candidate_views(candidates@) =~= candidate_views(before).push(c@));
                                                        Ok(())
                                                    },
                                                }
                                            },
                                        }
                                    },
                                }
                            } else {
                                Ok(())
                            }
                        },
                    },
                }
            },
        };
        if let Err(e) = step {
            proof {
                lemma_fields_walk_err(fs, dv, bytes@, context.source@, context.revision@, locator@, rule_view, fv, i + 1, fv.len() as int, views(path@), evidence_views(evidence@), marked@);
            }
            return Err(e);
        }
        proof {
            assert(candidate_views(candidates@) =~= candidate_views(start) + fields_walk(fs, dv, bytes@, context.source@, context.revision@, locator@, rule_view, fv, i + 1, views(path@), evidence_views(evidence@), marked@)->Ok_0);
        }
        i = i + 1;
    }
    Ok(())
}

/// A root declaration with its qualified identity.
struct RootAt {
    decl: usize,
    identity: String,
}

impl SortKey for RootAt {
    closed spec fn sort_key(&self) -> Seq<u32> {
        text_key(self.identity@)
    }

    fn sort_key_exec(&self) -> (k: Vec<u32>) {
        let mut k: Vec<u32> = Vec::new();
        crate::order::push_text_key(&mut k, self.identity.as_str());
        k
    }
}

spec fn root_decl_fn() -> spec_fn(RootAt) -> int {
    |r: RootAt| r.decl as int
}

fn no_flags(n: usize) -> (r: Vec<bool>)
    ensures
        r@ == Seq::new(n as nat, |i: int| false),
{
    let mut r: Vec<bool> = Vec::new();
    let mut i: usize = 0;
    while i < n
        invariant
            i <= n,
            r@ == Seq::new(i as nat, |q: int| false),
        decreases n - i,
    {
        r.push(false);
        assert(r@ =~= Seq::new((i + 1) as nat, |q: int| false));
        i = i + 1;
    }
    r
}

proof fn lemma_roots_walk_err(
    fs: Seq<FactView>,
    ds: Seq<int>,
    bytes: Seq<u8>,
    source: Seq<char>,
    revision: RevisionView,
    locator: Seq<char>,
    rs: Seq<int>,
    k: int,
    n: int,
)
    requires
        0 <= k <= n <= rs.len(),
        roots_walk(fs, ds, bytes, source, revision, locator, rs, k) is Err,
    ensures
        roots_walk(fs, ds, bytes, source, revision, locator, rs, n) == roots_walk(fs, ds, bytes, source, revision, locator, rs, k),
    decreases n - k,
{
    if n > k {
        lemma_roots_walk_err(fs, ds, bytes, source, revision, locator, rs, k, n - 1);
    }
}

/// Extracts the closed-value representation candidates of a Rust source file
/// from its syntactic facts.
#[verifier::rlimit(40)]
#[verifier::loop_isolation(false)]
pub fn extract_rust_candidates(
    context: &AnalysisSourceContext,
    locator: &str,
    bytes: &[u8],
    extraction: Result<RustExtraction, String>,
) -> (r: Result<Vec<RepresentationCandidate>, AnalysisError>)
    ensures
        match rust_candidates(context.source@, context.revision@, locator@, bytes@, extraction_view(extraction)) {
            Ok(cs) => r matches Ok(v) && candidate_views(v@) == cs && all_wf(v@),
            Err(e) => r matches Err(x) && x@ == e,
        },
{
    if !text_is_clean(locator) {
        return Err(AnalysisError::InvalidRustProjection(owned("Rust locator must be nonempty and trimmed")));
    }
    let extraction = match extraction {
        Ok(x) => x,
        Err(m) => {
            return Err(AnalysisError::InvalidRustProjection(crate::text::cat4("Rust source ", locator, ": ", m.as_str())));
        },
    };
    if extraction.diagnostics > 0 {
        let mut m = owned("Rust source ");
        push_str(&mut m, locator);
        push_str(&mut m, " has ");
        push_decimal(&mut m, extraction.diagnostics);
        push_str(&mut m, " parse diagnostics");
        return Err(AnalysisError::InvalidRustProjection(m));
    }
    let facts = &extraction.facts;
    let ghost fs = fact_views(facts@);
    let ds = collect_declarations(facts);
    let ghost dv = ints(ds@);
    proof {
        lemma_decls_named(fs, fs.len() as int);
        assert forall|k: int| 0 <= k < ds@.len() implies (#[trigger] ds@[k]) < facts@.len() && facts@[ds@[k] as int].name is Some by {
            assert(dv[k] == ds@[k] as int);
            assert(fs[dv[k]] == facts@[ds@[k] as int]@);
        }
    }
    // which declarations some struct field refers to
    let mut flags = no_flags(ds.len());
    let mut k: usize = 0;
    while k < ds.len()
        invariant
            k <= ds.len(),
            fs == fact_views(facts@),
            dv == ints(ds@),
            decls_ok(facts@, ds@),
            flags@.len() == ds@.len(),
            forall|t: int| 0 <= t < ds@.len() ==> flags@[t] == (#[trigger] referenced_upto(fs, dv, k as int).contains(t)),
        decreases ds.len() - k,
    {
        let decl = &facts[ds[k]];
        assert(fs[dv[k as int]] == decl@);
        if decl.kind == RustFactKind::Struct {
            let fields = members_of(facts, decl, RustFactKind::Field);
            let ghost fv = ints(fields@);
            let ghost before = referenced_upto(fs, dv, k as int);
            let mut j: usize = 0;
            while j < fields.len()
                invariant
                    j <= fields.len(),
                    fs == fact_views(facts@),
                    dv == ints(ds@),
                    fv == ints(fields@),
                    decls_ok(facts@, ds@),
                    forall|q: int| 0 <= q < fields@.len() ==> (#[trigger] fields@[q]) < facts@.len(),
                    flags@.len() == ds@.len(),
                    forall|t: int| 0 <= t < ds@.len() ==> flags@[t] == (before + targets_upto(fs, dv, fv, j as int)).contains(t),
                decreases fields.len() - j,
            {
                let f = &facts[fields[j]];
                assert(fs[fv[j as int]] == f@);
                let ghost prior = targets_upto(fs, dv, fv, j as int);
                match unique_field_target(facts, &ds, f) {
                    Some(t) => {
                        flags.set(t, true);
                        assert(targets_upto(fs, dv, fv, j + 1) =~= prior + set![t as int]);
                    },
                    None => {
                        assert(targets_upto(fs, dv, fv, j + 1) =~= prior);
                    },
                }
                j = j + 1;
            }
            assert(fv == members(fs, fs[dv[k as int]], RustFactKind::Field));
            assert(referenced_upto(fs, dv, k + 1) =~= before + targets_upto(fs, dv, fv, fv.len() as int));
        } else {
            assert(referenced_upto(fs, dv, k + 1) =~= referenced_upto(fs, dv, k as int));
        }
        k = k + 1;
    }
    let ghost refd = referenced_upto(fs, dv, dv.len() as int);
    // the roots, by qualified identity
    let mut found: Vec<RootAt> = Vec::new();
    let mut k: usize = 0;
    while k < ds.len()
        invariant
            k <= ds.len(),
            fs == fact_views(facts@),
            dv == ints(ds@),
            decls_ok(facts@, ds@),
            flags@.len() == ds@.len(),
            forall|t: int| 0 <= t < ds@.len() ==> flags@[t] == (#[trigger] refd.contains(t)),
            found@.map_values(root_decl_fn()) == roots_upto(fs, dv, refd, k as int),
            forall|q: int| 0 <= q < found@.len() ==> (#[trigger] found@[q]).decl < k && found@[q].identity@ == qualified(fs[dv[found@[q].decl as int]]),
        decreases ds.len() - k,
    {
        let decl = &facts[ds[k]];
        assert(fs[dv[k as int]] == decl@);
        let ghost before = found@;
        if decl.kind == RustFactKind::Struct && !flags[k] {
            found.push(RootAt { decl: k, identity: qualified_exec(decl) });
            assert(found@.map_values(root_decl_fn()) =~= before.map_values(root_decl_fn()).push(k as int));
        }
        k = k + 1;
    }
    let ghost unsorted = found@;
    let sorted = sort_by_key(found);
    proof {
        lemma_stable_sort_map_on(unsorted, key_of::<RootAt>(), root_decl_fn(), root_key_fn(fs, dv));
        crate::order::lemma_stable_sort_contains(unsorted, key_of::<RootAt>());
        assert forall|q: int| 0 <= q < sorted@.len() implies (#[trigger] sorted@[q]).decl < ds@.len() by {
            assert(unsorted.contains(sorted@[q]));
        }
    }
    let ghost rs = sorted@.map_values(root_decl_fn());
    assert(rs == roots(fs, dv));
    // walk from each root
    let mut candidates: Vec<RepresentationCandidate> = Vec::new();
    let empty_path: Vec<String> = Vec::new();
    let empty_evidence: Vec<CandidateEvidence> = Vec::new();
    assert(views(empty_path@) =~= Seq::<Seq<char>>::empty());
    assert(evidence_views(empty_evidence@) =~= Seq::<EvidenceView>::empty());
    let mut q: usize = 0;
    while q < sorted.len()
        invariant
            q <= sorted.len(),
            fs == fact_views(facts@),
            dv == ints(ds@),
            decls_ok(facts@, ds@),
            rs == sorted@.map_values(root_decl_fn()),
            forall|t: int| 0 <= t < sorted@.len() ==> (#[trigger] sorted@[t]).decl < ds@.len(),
            views(empty_path@) == Seq::<Seq<char>>::empty(),
            evidence_views(empty_evidence@) == Seq::<EvidenceView>::empty(),
            all_wf(candidates@),
            roots_walk(fs, dv, bytes@, context.source@, context.revision@, locator@, rs, q as int)
                matches Ok(cs) && candidate_views(candidates@) == cs,
        decreases sorted.len() - q,
    {
        let flags0 = no_flags(ds.len());
        assert(flags0@ =~= Seq::new(dv.len(), |i: int| false));
        let ghost before = candidates@;
        assert(rs[q as int] == sorted@[q as int].decl as int);
        let step = walk_struct(facts, &ds, bytes, context, locator, sorted[q].decl, &empty_path, &empty_evidence, &flags0, &mut candidates);
        if let Err(e) = step {
            proof {
                lemma_roots_walk_err(fs, dv, bytes@, context.source@, context.revision@, locator@, rs, q + 1, rs.len() as int);
            }
            return Err(e);
        }
        q = q + 1;
    }
    Ok(normalize_candidates(candidates))
}

} // verus!
