//! One analysis pass over a source tree: every discovered file goes to its
//! extractor, and the candidates of all of them are assembled into one graph.

use vstd::prelude::*;
use crate::analysis::assembly::{
    assemble_contract_graph, assembly, AssemblyView, ContractGraph, Contract, Observation, Representation,
    SourceRecord,
};
use crate::analysis::candidate::{all_wf, candidate_views, RepresentationCandidate};
use crate::analysis::context::AnalysisSourceContext;
use crate::analysis::discovery::{explicit_json_schema, is_explicit_json_schema, locator_of, relative_locator, SourceFileKind};
use crate::analysis::error::{AnalysisError, AnalysisErrorView};
use crate::analysis::json_schema::{extract_json_schema_candidates, schema_candidates};
use crate::analysis::rust_facts::RustExtraction;
use crate::analysis::rust_projection::{extraction_view, extract_rust_candidates, rust_candidates};
use crate::json::{json_document, parse_json};
use crate::model::RevisionView;
use crate::text::views;

verus! {

/// A discovered source with what was read of it: its bytes (or the read
/// failure), and what the Rust syntax extractor made of them.
pub struct SourceInput {
    pub relative_path: Vec<String>,
    pub kind: SourceFileKind,
    pub bytes: Result<Vec<u8>, String>,
    pub rust: Result<RustExtraction, String>,
}

/// The candidates of one source, by its kind.
#[verifier::opaque]
pub open spec fn source_candidates(source: Seq<char>, revision: RevisionView, input: SourceInput) -> Result<
    Seq<crate::analysis::candidate::CandidateView>,
    AnalysisErrorView,
> {
    let locator = locator_of(views(input.relative_path@));
    match input.bytes {
        Err(m) => Err(AnalysisErrorView::Io(m@)),
        Ok(b) => match input.kind {
            SourceFileKind::Rust => rust_candidates(source, revision, locator, b@, extraction_view(input.rust)),
            SourceFileKind::Json => if explicit_json_schema(locator, json_document(b@)) {
                schema_candidates(source, revision, locator, json_document(b@))
            } else {
                match json_document(b@) {
                    Err(m) => Err(AnalysisErrorView::InvalidJson("JSON source "@ + locator + ": "@ + m)),
                    Ok(_) => Ok(Seq::empty()),
                }
            },
        },
    }
}

/// The candidates of all sources, in order; the first failure stops the pass.
pub open spec fn gathered(source: Seq<char>, revision: RevisionView, inputs: Seq<SourceInput>) -> Result<
    Seq<crate::analysis::candidate::CandidateView>,
    AnalysisErrorView,
>
    decreases inputs.len(),
{
    if inputs.len() == 0 {
        Ok(Seq::empty())
    } else {
        match gathered(source, revision, inputs.drop_last()) {
            Err(e) => Err(e),
            Ok(cs) => match source_candidates(source, revision, inputs.last()) {
                Err(e) => Err(e),
                Ok(more) => Ok(cs + more),
            },
        }
    }
}

/// What an analysis pass over the given sources yields.
pub open spec fn analysis(
    repository: Seq<char>,
    source: Seq<char>,
    namespace: Seq<char>,
    revision: RevisionView,
    inputs: Seq<SourceInput>,
) -> Result<AssemblyView, AnalysisErrorView> {
    match gathered(source, revision, inputs) {
        Err(e) => Err(e),
        Ok(cs) => assembly(repository, source, namespace, revision, cs),
    }
}

pub open spec fn graph_matches(g: ContractGraph, a: AssemblyView) -> bool {
    &&& g.sources@.map_values(|x: SourceRecord| x@) == a.sources
    &&& g.observations@.map_values(|x: Observation| x@) == a.observations
    &&& g.contracts@.map_values(|x: Contract| x@) == a.contracts
    &&& g.representations@.map_values(|x: Representation| x@) == a.representations
}

proof fn lemma_gathered_err(source: Seq<char>, revision: RevisionView, s: Seq<SourceInput>, k: int)
    requires
        0 <= k <= s.len(),
        gathered(source, revision, s.take(k)) is Err,
    ensures
        gathered(source, revision, s) == gathered(source, revision, s.take(k)),
    decreases s.len() - k,
{
    if k < s.len() {
        assert(s.take(k + 1).drop_last() =~= s.take(k));
        assert(gathered(source, revision, s.take(k + 1)) == gathered(source, revision, s.take(k)));
        lemma_gathered_err(source, revision, s, k + 1);
    } else {
        assert(s.take(k) =~= s);
    }
}

fn candidates_of_source(context: &AnalysisSourceContext, input: SourceInput) -> (r: Result<
    Vec<RepresentationCandidate>,
    AnalysisError,
>)
    ensures
        match source_candidates(context.source@, context.revision@, input) {
            Ok(cs) => r matches Ok(v) && candidate_views(v@) == cs && all_wf(v@),
            Err(e) => r matches Err(x) && x@ == e,
        },
{
    reveal(source_candidates);
    let locator = relative_locator(input.relative_path.as_slice());
    let bytes = match input.bytes {
        Ok(b) => b,
        Err(m) => {
            return Err(AnalysisError::Io(m));
        },
    };
    match input.kind {
        SourceFileKind::Rust => extract_rust_candidates(context, locator.as_str(), bytes.as_slice(), input.rust),
        SourceFileKind::Json => {
            if is_explicit_json_schema(locator.as_str(), bytes.as_slice()) {
                extract_json_schema_candidates(context, locator.as_str(), bytes.as_slice())
            } else {
                match parse_json(bytes.as_slice()) {
                    Err(m) => Err(AnalysisError::InvalidJson(crate::text::cat4("JSON source ", locator.as_str(), ": ", m.as_str()))),
                    Ok(_) => {
                        let none: Vec<RepresentationCandidate> = Vec::new();
                        assert(candidate_views(none@) =~= Seq::empty());
                        Ok(none)
                    },
                }
            }
        },
    }
}

fn gather(context: &AnalysisSourceContext, inputs: Vec<SourceInput>) -> (r: Result<
    Vec<RepresentationCandidate>,
    AnalysisError,
>)
    ensures
        match gathered(context.source@, context.revision@, inputs@) {
            Ok(cs) => r matches Ok(v) && candidate_views(v@) == cs && all_wf(v@),
            Err(e) => r matches Err(x) && x@ == e,
        },
{
    let ghost all = inputs@;
    let n: usize = inputs.len();
    let mut candidates: Vec<RepresentationCandidate> = Vec::new();
    let mut rest = inputs;
    let mut i: usize = 0;
    assert(all.skip(0) =~= all);
    assert(candidate_views(candidates@) =~= Seq::empty());
    while rest.len() > 0
        invariant
            i <= all.len(),
            all == inputs@,
            all.len() == n,
            rest@ == all.skip(i as int),
            all_wf(candidates@),
            gathered(context.source@, context.revision@, all.take(i as int)) == Ok::<
                Seq<crate::analysis::candidate::CandidateView>,
                AnalysisErrorView,
            >(candidate_views(candidates@)),
        decreases rest.len(),
    {
        let input = rest.remove(0);
        proof {
            assert(input == all[i as int]);
            assert(rest@ =~= all.skip(i + 1));
            assert(all.take(i + 1).drop_last() =~= all.take(i as int));
            assert(all.take(i + 1).last() == input);
        }
        let mut found = match candidates_of_source(context, input) {
            Ok(v) => v,
            Err(e) => {
                proof {
                    assert(gathered(context.source@, context.revision@, all.take(i + 1)) == Err::<
                        Seq<crate::analysis::candidate::CandidateView>,
                        AnalysisErrorView,
                    >(e@));
                    lemma_gathered_err(context.source@, context.revision@, all, i + 1);
                    assert(gathered(context.source@, context.revision@, all) == Err::<
                        Seq<crate::analysis::candidate::CandidateView>,
                        AnalysisErrorView,
                    >(e@));
                }
                return Err(e);
            },
        };
        let ghost before = candidates@;
        let ghost more = found@;
        candidates.append(&mut found);
        proof {
            assert(candidates@ == before + more);
            assert(candidate_views(before + more) =~= candidate_views(before) + candidate_views(more));
            assert forall|k: int| 0 <= k < candidates@.len() implies (#[trigger] candidates@[k]).wf() by {
                if k >= before.len() {
                    assert(candidates@[k] == more[k - before.len()]);
                }
            }
        }
        i = i + 1;
    }
    assert(all.take(i as int) =~= all);
    Ok(candidates)
}

/// Analyzes the discovered sources of a tree, in discovery order, and
/// assembles their candidates into a contract graph.
pub fn analyze_tree(context: &AnalysisSourceContext, inputs: Vec<SourceInput>) -> (r: Result<
    ContractGraph,
    AnalysisError,
>)
    ensures
        match analysis(context.repository@, context.source@, context.namespace@, context.revision@, inputs@) {
            Ok(a) => r matches Ok(g) && graph_matches(g, a),
            Err(e) => r matches Err(x) && x@ == e,
        },
{
    let candidates = match gather(context, inputs) {
        Ok(v) => v,
        Err(e) => {
            return Err(e);
        },
    };
    match assemble_contract_graph(context, candidates.as_slice()) {
        Ok(a) => Ok(a.graph),
        Err(e) => Err(e),
    }
}

} // verus!
