//! Representation candidates from explicit JSON Schema documents.
//!
//! A schema is walked from its root: `$ref` follows local references, `anyOf`
//! follows its one substantive branch, `enum` of non-empty strings under a named
//! property closes a value set, and `properties` and `additionalProperties`
//! descend. Every closed string enum becomes one candidate.

use vstd::prelude::*;
use crate::analysis::candidate::{
    all_wf, candidate_key_fn, candidate_problem, candidate_view_of, candidate_views,
    normalize_candidates, valid_path, first_unclean, CandidateEvidence, CandidateMechanism,
    CandidateView, EvidenceView, RepresentationCandidate, SemanticPath,
};
use crate::analysis::context::AnalysisSourceContext;
use crate::analysis::error::{AnalysisError, AnalysisErrorView};
use crate::json::{
    decimal, escape_pointer, lemma_item_refs, lemma_member_refs, lemma_member_value_index,
    lemma_member_value_refs, lemma_refs_finite, lemma_resolve_refs, member_value, own_ref,
    pointer_tokens, push_decimal, push_escaped_segment, refs, resolve_pointer, resolve_tokens,
    get_member, json_document, json_result_view, parse_json, JsonMember, JsonValue,
};
use crate::model::{clone_revision, ContractFacet, RepresentationKind, RevisionView};
use crate::order::{
    ascending_by, ascending_of, dedup_seq, lemma_ascending_unique, lemma_sorted_texts_ascending,
    sorted_texts, stable_sort_by, text_key_fn,
};
use crate::text::{
    clone_texts, is_clean, join, joined, owned, push_str, starts_with, text_is_clean, text_starts_with, views,
};

verus! {

/// What walking a schema node yields: the candidates found, in order, or the
/// error that stops the walk.
pub open spec fn schema_error(m: Seq<char>) -> Result<Seq<CandidateView>, AnalysisErrorView> {
    Err(AnalysisErrorView::InvalidSchema(m))
}

pub open spec fn is_null_text(v: JsonValue) -> bool {
    match v {
        JsonValue::Text(t) => t@ == "null"@,
        _ => false,
    }
}

/// A schema that only admits `null`: `"type": "null"`, or a nonempty list of
/// types that are all `"null"`.
pub open spec fn is_null_schema(v: JsonValue) -> bool {
    match v {
        JsonValue::Object(ms) => match member_value(ms@, "type"@) {
            Some(JsonValue::Text(t)) => t@ == "null"@,
            Some(JsonValue::Array(vs)) => vs@.len() > 0 && forall|i: int|
                0 <= i < vs@.len() ==> is_null_text(#[trigger] vs@[i]),
            _ => false,
        },
        _ => false,
    }
}

/// The indices, below `n`, of the branches that are not null schemas.
pub open spec fn substantive(bs: Seq<JsonValue>, n: int) -> Seq<int>
    decreases n,
{
    if n <= 0 || n > bs.len() {
        Seq::empty()
    } else if is_null_schema(bs[n - 1]) {
        substantive(bs, n - 1)
    } else {
        substantive(bs, n - 1).push(n - 1)
    }
}

/// The strings of an `enum`, when every value is a nonempty string.
pub open spec fn enum_texts(vals: Seq<JsonValue>) -> Option<Seq<Seq<char>>> {
    if forall|i: int| 0 <= i < vals.len() ==> (#[trigger] vals[i] is Text && vals[i]->Text_0@.len() > 0) {
        Some(Seq::new(vals.len(), |i: int| vals[i]->Text_0@))
    } else {
        None
    }
}

/// The candidate of a closed string enum at `pointer`, for property path `path`.
pub open spec fn enum_candidate(
    source: Seq<char>,
    revision: RevisionView,
    locator: Seq<char>,
    path: Seq<Seq<char>>,
    pointer: Seq<char>,
    mechs: Seq<CandidateMechanism>,
    texts: Seq<Seq<char>>,
) -> Result<CandidateView, AnalysisErrorView> {
    if !valid_path(path) {
        Err(AnalysisErrorView::InvalidSemanticPath(first_unclean(path)->Some_0))
    } else {
        let mechanisms = mechs.push(CandidateMechanism::JsonSchemaProperty).push(
            CandidateMechanism::JsonSchemaClosedValueSet,
        );
        let evidence_locator = locator + pointer;
        let evidence = seq![
            EvidenceView {
                source,
                revision,
                locator: evidence_locator,
                fact: "explicit schema property path "@ + joined(path, "."@),
            },
            EvidenceView {
                source,
                revision,
                locator: evidence_locator,
                fact: "closed string enum ["@ + joined(ascending_of(texts.to_set(), text_key_fn()), ","@)
                    + "]"@,
            },
        ];
        match candidate_problem(
            pointer,
            locator,
            seq![ContractFacet::Structure],
            Some(texts),
            mechanisms,
            evidence,
        ) {
            Some(m) => Err(AnalysisErrorView::InvalidCandidate(m)),
            None => Ok(
                candidate_view_of(
                    RepresentationKind::Schema,
                    pointer,
                    locator,
                    seq![ContractFacet::Structure],
                    path,
                    Some(texts),
                    mechanisms,
                    evidence,
                ),
            ),
        }
    }
}

pub proof fn lemma_difference_shrinks(u: Set<Seq<char>>, a: Set<Seq<char>>, x: Seq<char>)
    requires
        u.finite(),
        u.contains(x),
        !a.contains(x),
    ensures
        u.difference(a.insert(x)).len() < u.difference(a).len(),
{
    broadcast use vstd::set::axiom_set_difference_finite, vstd::set::axiom_set_remove_len;

    assert(u.difference(a.insert(x)) =~= u.difference(a).remove(x));
    assert(u.difference(a).contains(x));
}

/// Walks one schema node. `active` holds the local references being followed;
/// the walk is defined while every `$ref` below `node` and in `active` occurs in
/// `root`, which bounds how often references can be followed.
pub open spec fn schema_walk(
    root: JsonValue,
    node: JsonValue,
    source: Seq<char>,
    revision: RevisionView,
    locator: Seq<char>,
    path: Seq<Seq<char>>,
    pointer: Seq<char>,
    mechs: Seq<CandidateMechanism>,
    active: Set<Seq<char>>,
) -> Result<Seq<CandidateView>, AnalysisErrorView>
    decreases refs(root).difference(active).len(), node, 0int,
    when refs(node).subset_of(refs(root)) && active.subset_of(refs(root))
{
    match node {
        JsonValue::Object(members) => {
            let ms = members@;
            proof {
                lemma_member_value_index(ms, "$ref"@);
                lemma_member_value_index(ms, "anyOf"@);
                lemma_member_value_index(ms, "properties"@);
                lemma_member_value_index(ms, "additionalProperties"@);
                lemma_refs_finite(root);
            }
            if member_value(ms, "$ref"@) is Some {
                match member_value(ms, "$ref"@)->Some_0 {
                    JsonValue::Text(r) => if !starts_with(r@, "#/"@) {
                        schema_error("unsupported non-local $ref at "@ + pointer + ": "@ + r@)
                    } else if active.contains(r@) {
                        schema_error("cyclic local $ref: "@ + r@)
                    } else {
                        match resolve_tokens(root, pointer_tokens(r@.drop_first())) {
                            None => schema_error("broken local $ref: "@ + r@),
                            Some(target) => {
                                proof {
                                    assert(own_ref(ms).contains(r@));
                                    assert(refs(node).contains(r@));
                                    lemma_difference_shrinks(refs(root), active, r@);
                                }
                                schema_walk(
                                    root,
                                    target,
                                    source,
                                    revision,
                                    locator,
                                    path,
                                    r@,
                                    mechs.push(CandidateMechanism::JsonSchemaReference),
                                    active.insert(r@),
                                )
                            },
                        }
                    },
                    _ => schema_error("$ref at "@ + pointer + " must be a string"@),
                }
            } else if member_value(ms, "anyOf"@) is Some {
                match member_value(ms, "anyOf"@)->Some_0 {
                    JsonValue::Array(bs) => {
                        let sub = substantive(bs@, bs@.len() as int);
                        if sub.len() != 1 {
                            Ok(Seq::empty())
                        } else {
                            let k = sub[0];
                            if 0 <= k < bs@.len() {
                                proof {
                                    let i = choose|i: int| 0 <= i < ms.len() && #[trigger] ms[i].value == member_value(ms, "anyOf"@)->Some_0;
                                    assert(decreases_to!(node => members));
                                    assert(decreases_to!(members => ms));
                                    assert(decreases_to!(ms => ms[i]));
                                    assert(decreases_to!(ms[i] => ms[i].value));
                                    assert(decreases_to!(ms[i].value => bs));
                                    assert(decreases_to!(bs => bs@));
                                    assert(decreases_to!(bs@ => bs@[k]));
                                }
                                schema_walk(
                                    root,
                                    bs@[k],
                                    source,
                                    revision,
                                    locator,
                                    path,
                                    pointer + "/anyOf/"@ + decimal(k as nat),
                                    mechs,
                                    active,
                                )
                            } else {
                                Ok(Seq::empty())
                            }
                        }
                    },
                    _ => schema_error("anyOf at "@ + pointer + " must be an array"@),
                }
            } else if member_value(ms, "enum"@) is Some {
                match member_value(ms, "enum"@)->Some_0 {
                    JsonValue::Array(vals) => if path.len() == 0 {
                        Ok(Seq::empty())
                    } else {
                        match enum_texts(vals@) {
                            None => Ok(Seq::empty()),
                            Some(texts) => if texts.len() == 0 {
                                Ok(Seq::empty())
                            } else {
                                match enum_candidate(source, revision, locator, path, pointer, mechs, texts) {
                                    Ok(c) => Ok(seq![c]),
                                    Err(e) => Err(e),
                                }
                            },
                        }
                    },
                    _ => schema_error("enum at "@ + pointer + " must be an array"@),
                }
            } else {
                let props: Result<Seq<CandidateView>, AnalysisErrorView> = if member_value(ms, "properties"@) is Some {
                    match member_value(ms, "properties"@)->Some_0 {
                        JsonValue::Object(ps) => {
                            proof {
                                let i = choose|i: int| 0 <= i < ms.len() && #[trigger] ms[i].value == member_value(ms, "properties"@)->Some_0;
                                assert(decreases_to!(node => members));
                                assert(decreases_to!(members => ms));
                                assert(decreases_to!(ms => ms[i]));
                                assert(decreases_to!(ms[i] => ms[i].value));
                                assert(decreases_to!(ms[i].value => ps));
                                assert(decreases_to!(ps => ps@));
                            }
                            property_walk(
                                root,
                                ps@,
                                ps@.len() as int,
                                source,
                                revision,
                                locator,
                                path,
                                pointer,
                                mechs,
                                active,
                            )
                        },
                        _ => schema_error("properties at "@ + pointer + " must be an object"@),
                    }
                } else {
                    Ok(Seq::empty())
                };
                match props {
                    Err(e) => Err(e),
                    Ok(cs) => if member_value(ms, "additionalProperties"@) is Some
                        && member_value(ms, "additionalProperties"@)->Some_0 is Object {
                        proof {
                            let i = choose|i: int| 0 <= i < ms.len() && #[trigger] ms[i].value == member_value(ms, "additionalProperties"@)->Some_0;
                            assert(decreases_to!(node => members));
                            assert(decreases_to!(members => ms));
                            assert(decreases_to!(ms => ms[i]));
                            assert(decreases_to!(ms[i] => ms[i].value));
                        }
                        match schema_walk(
                            root,
                            member_value(ms, "additionalProperties"@)->Some_0,
                            source,
                            revision,
                            locator,
                            path,
                            pointer + "/additionalProperties"@,
                            mechs,
                            active,
                        ) {
                            Ok(more) => Ok(cs + more),
                            Err(e) => Err(e),
                        }
                    } else {
                        Ok(cs)
                    },
                }
            }
        },
        _ => schema_error("schema node at "@ + pointer + " must be an object"@),
    }
}

/// Walks the first `n` properties of a `properties` object, in order, each under
/// its name.
pub open spec fn property_walk(
    root: JsonValue,
    ps: Seq<JsonMember>,
    n: int,
    source: Seq<char>,
    revision: RevisionView,
    locator: Seq<char>,
    path: Seq<Seq<char>>,
    pointer: Seq<char>,
    mechs: Seq<CandidateMechanism>,
    active: Set<Seq<char>>,
) -> Result<Seq<CandidateView>, AnalysisErrorView>
    decreases refs(root).difference(active).len(), ps, n,
    when active.subset_of(refs(root))
{
    if n <= 0 || n > ps.len() {
        Ok(Seq::empty())
    } else {
        match property_walk(root, ps, n - 1, source, revision, locator, path, pointer, mechs, active) {
            Err(e) => Err(e),
            Ok(cs) => {
                proof {
                    assert(decreases_to!(ps => ps[n - 1]));
                    assert(decreases_to!(ps[n - 1] => ps[n - 1].value));
                }
                match schema_walk(
                    root,
                    ps[n - 1].value,
                    source,
                    revision,
                    locator,
                    path.push(ps[n - 1].key@),
                    pointer + "/properties/"@ + escape_pointer(ps[n - 1].key@),
                    mechs.push(CandidateMechanism::JsonSchemaProperty),
                    active,
                ) {
                    Ok(more) => Ok(cs + more),
                    Err(e) => Err(e),
                }
            },
        }
    }
}

/// Once a property fails, the walk of all properties fails with that error.
proof fn lemma_property_walk_err(
    root: JsonValue,
    ps: Seq<JsonMember>,
    k: int,
    n: int,
    source: Seq<char>,
    revision: RevisionView,
    locator: Seq<char>,
    path: Seq<Seq<char>>,
    pointer: Seq<char>,
    mechs: Seq<CandidateMechanism>,
    active: Set<Seq<char>>,
)
    requires
        active.subset_of(refs(root)),
        0 <= k <= n <= ps.len(),
        property_walk(root, ps, k, source, revision, locator, path, pointer, mechs, active) is Err,
    ensures
        property_walk(root, ps, n, source, revision, locator, path, pointer, mechs, active)
            == property_walk(root, ps, k, source, revision, locator, path, pointer, mechs, active),
    decreases n - k,
{
    if n > k {
        lemma_property_walk_err(root, ps, k, n - 1, source, revision, locator, path, pointer, mechs, active);
    }
}

fn with_text(v: &Vec<String>, t: &str) -> (r: Vec<String>)
    ensures
        views(r@) == views(v@).push(t@),
{
    let mut r = clone_texts(v);
    let ghost before = r@;
    r.push(owned(t));
    assert(views(r@) =~= views(before).push(t@));
    r
}

fn with_mechanism(v: &Vec<CandidateMechanism>, m: CandidateMechanism) -> (r: Vec<CandidateMechanism>)
    ensures
        r@ == v@.push(m),
{
    let mut r: Vec<CandidateMechanism> = Vec::new();
    let mut i: usize = 0;
    while i < v.len()
        invariant
            i <= v.len(),
            r@ == v@.take(i as int),
        decreases v.len() - i,
    {
        r.push(v[i]);
        assert(r@ =~= v@.take(i + 1));
        i = i + 1;
    }
    assert(v@.take(v.len() as int) =~= v@);
    r.push(m);
    r
}

fn holds_text(v: &Vec<String>, t: &str) -> (r: bool)
    ensures
        r == views(v@).to_set().contains(t@),
{
    let mut i: usize = 0;
    while i < v.len()
        invariant
            i <= v.len(),
            forall|k: int| 0 <= k < i ==> v@[k]@ != t@,
        decreases v.len() - i,
    {
        if crate::text::text_eq(v[i].as_str(), t) {
            assert(views(v@)[i as int] == t@);
            return true;
        }
        i = i + 1;
    }
    assert(!views(v@).contains(t@));
    false
}

/// The text of a reference after its leading `#`.
fn after_hash(s: &str) -> (r: String)
    requires
        s@.len() > 0,
    ensures
        r@ == s@.drop_first(),
{
    let chars = crate::text::chars_of(s);
    let mut r = String::new();
    let mut i: usize = 1;
    while i < chars.len()
        invariant
            1 <= i <= chars.len(),
            chars@ == s@,
            r@ == s@.subrange(1, i as int),
        decreases chars.len() - i,
    {
        crate::text::push_char(&mut r, chars[i]);
        assert(r@ =~= s@.subrange(1, i + 1));
        i = i + 1;
    }
    assert(s@.subrange(1, s@.len() as int) =~= s@.drop_first());
    r
}

fn is_null_text_exec(v: &JsonValue) -> (r: bool)
    ensures
        r == is_null_text(*v),
{
    match v {
        JsonValue::Text(t) => crate::text::text_eq(t.as_str(), "null"),
        _ => false,
    }
}

fn is_null_schema_exec(v: &JsonValue) -> (r: bool)
    ensures
        r == is_null_schema(*v),
{
    match v {
        JsonValue::Object(ms) => match get_member(ms, "type") {
            Some(JsonValue::Text(t)) => crate::text::text_eq(t.as_str(), "null"),
            Some(JsonValue::Array(vs)) => {
                if vs.len() == 0 {
                    return false;
                }
                let mut i: usize = 0;
                while i < vs.len()
                    invariant
                        i <= vs.len(),
                        *v == JsonValue::Object(*ms),
                        member_value(ms@, "type"@) == Some(JsonValue::Array(*vs)),
                        forall|k: int| 0 <= k < i ==> is_null_text(#[trigger] vs@[k]),
                    decreases vs.len() - i,
                {
                    if !is_null_text_exec(&vs[i]) {
                        assert(!is_null_text(vs@[i as int]));
                        return false;
                    }
                    i = i + 1;
                }
                true
            },
            _ => false,
        },
        _ => false,
    }
}

/// `b` begins with all of `a`.
pub open spec fn extends<T>(a: Seq<T>, b: Seq<T>) -> bool {
    a.len() <= b.len() && b.take(a.len() as int) == a
}

proof fn lemma_extends_refl<T>(a: Seq<T>)
    ensures
        extends(a, a),
{
    assert(a.take(a.len() as int) =~= a);
}

proof fn lemma_extends_trans<T>(a: Seq<T>, b: Seq<T>, c: Seq<T>)
    requires
        extends(a, b),
        extends(b, c),
    ensures
        extends(a, c),
{
    assert(c.take(a.len() as int) =~= b.take(a.len() as int));
}

/// The node is refused before anything under it is walked: it is no object, or
/// its own `$ref` is no string, is not local, or is already being followed.
pub open spec fn refused_at_node(node: JsonValue, active: Set<Seq<char>>) -> bool {
    match node {
        JsonValue::Object(ms) => match member_value(ms@, "$ref"@) {
            Some(JsonValue::Text(t)) => !starts_with(t@, "#/"@) || active.contains(t@),
            Some(_) => true,
            None => false,
        },
        _ => true,
    }
}

#[verifier::rlimit(50)]
#[verifier::loop_isolation(false)]
fn walk_node(
    root: &JsonValue,
    node: &JsonValue,
    context: &AnalysisSourceContext,
    locator: &str,
    path: &Vec<String>,
    pointer: &str,
    mechanisms: &Vec<CandidateMechanism>,
    active: &Vec<String>,
    candidates: &mut Vec<RepresentationCandidate>,
) -> (r: Result<(), AnalysisError>)
    requires
        refs(*node).subset_of(refs(*root)),
        views(active@).to_set().subset_of(refs(*root)),
        all_wf(old(candidates)@),
    ensures
        all_wf(final(candidates)@),
        extends(old(candidates)@, final(candidates)@),
        refused_at_node(*node, views(active@).to_set()) ==> r is Err && final(candidates)@ == old(candidates)@,
        match schema_walk(
            *root,
            *node,
            context.source@,
            context.revision@,
            locator@,
            views(path@),
            pointer@,
            mechanisms@,
            views(active@).to_set(),
        ) {
            Ok(cs) => r is Ok && candidate_views(final(candidates)@) == candidate_views(old(candidates)@) + cs,
            Err(e) => r matches Err(x) && x@ == e,
        },
    decreases refs(*root).difference(views(active@).to_set()).len(), *node, 0int,
{
    proof {
        lemma_extends_refl(old(candidates)@);
    }
    let ghost act = views(active@).to_set();
    let ghost spec_result = schema_walk(
        *root,
        *node,
        context.source@,
        context.revision@,
        locator@,
        views(path@),
        pointer@,
        mechanisms@,
        act,
    );
    let members = match node {
        JsonValue::Object(ms) => ms,
        _ => {
            return Err(AnalysisError::InvalidSchema(crate::text::cat3("schema node at ", pointer, " must be an object")));
        },
    };
    let ghost ms = members@;
    proof {
        lemma_member_value_index(ms, "$ref"@);
        lemma_member_value_index(ms, "anyOf"@);
        lemma_member_value_index(ms, "properties"@);
        lemma_member_value_index(ms, "additionalProperties"@);
        lemma_refs_finite(*root);
        lemma_member_value_refs(*node, "anyOf"@);
        lemma_member_value_refs(*node, "properties"@);
        lemma_member_value_refs(*node, "additionalProperties"@);
    }
    if let Some(reference_value) = get_member(members, "$ref") {
        let reference = match reference_value {
            JsonValue::Text(t) => t,
            _ => {
                return Err(AnalysisError::InvalidSchema(crate::text::cat3("$ref at ", pointer, " must be a string")));
            },
        };
        if !text_starts_with(reference.as_str(), "#/") {
            return Err(AnalysisError::InvalidSchema(crate::text::cat4("unsupported non-local $ref at ", pointer, ": ", reference.as_str())));
        }
        if holds_text(active, reference.as_str()) {
            return Err(AnalysisError::InvalidSchema(crate::text::cat2("cyclic local $ref: ", reference.as_str())));
        }
        proof {
            assert(reference@.len() >= 2) by {
                assert(starts_with(reference@, "#/"@));
                reveal_strlit("#/");
            }
        }
        let target_pointer = after_hash(reference.as_str());
        let target = match resolve_pointer(root, target_pointer.as_str()) {
            Some(t) => t,
            None => {
                return Err(AnalysisError::InvalidSchema(crate::text::cat2("broken local $ref: ", reference.as_str())));
            },
        };
        let mut next_active = clone_texts(active);
        next_active.push(reference.clone());
        let next_mechanisms = with_mechanism(mechanisms, CandidateMechanism::JsonSchemaReference);
        proof {
            assert(views(next_active@) =~= views(active@).push(reference@));
            crate::order::lemma_push_to_set(views(active@), reference@);
            assert(own_ref(ms).contains(reference@));
            assert(refs(*node).contains(reference@));
            lemma_resolve_refs(*root, pointer_tokens(reference@.drop_first()));
            lemma_difference_shrinks(refs(*root), act, reference@);
        }
        return walk_node(root, target, context, locator, path, reference.as_str(), &next_mechanisms, &next_active, candidates);
    }
    if let Some(any_of) = get_member(members, "anyOf") {
        let branches = match any_of {
            JsonValue::Array(bs) => bs,
            _ => {
                return Err(AnalysisError::InvalidSchema(crate::text::cat3("anyOf at ", pointer, " must be an array")));
            },
        };
        let mut count: usize = 0;
        let mut index: usize = 0;
        let mut i: usize = 0;
        while i < branches.len()
            invariant
                i <= branches.len(),
                count <= i,
                count == substantive(branches@, i as int).len(),
                count >= 1 ==> index == substantive(branches@, i as int)[0] && index < i,
                forall|k: int| 0 <= k < substantive(branches@, i as int).len() ==> 0 <= #[trigger] substantive(branches@, i as int)[k] < i,
            decreases branches.len() - i,
        {
            if !is_null_schema_exec(&branches[i]) {
                if count == 0 {
                    index = i;
                }
                count = count + 1;
            }
            i = i + 1;
        }
        if count != 1 {
            return Ok(());
        }
        let mut next_pointer = owned(pointer);
        push_str(&mut next_pointer, "/anyOf/");
        push_decimal(&mut next_pointer, index);
        proof {
            lemma_item_refs(*any_of, index as int);
            let i = choose|i: int| 0 <= i < ms.len() && #[trigger] ms[i].value == member_value(ms, "anyOf"@)->Some_0;
            assert(decreases_to!(*node => (*node)->Object_0));
            assert(decreases_to!((*node)->Object_0 => ms));
            assert(decreases_to!(ms => ms[i]));
            assert(decreases_to!(ms[i] => ms[i].value));
            assert(decreases_to!(ms[i].value => (ms[i].value)->Array_0));
            assert(decreases_to!((ms[i].value)->Array_0 => branches@));
            assert(decreases_to!(branches@ => branches@[index as int]));
        }
        return walk_node(root, &branches[index], context, locator, path, next_pointer.as_str(), mechanisms, active, candidates);
    }
    if let Some(enum_value) = get_member(members, "enum") {
        let values = match enum_value {
            JsonValue::Array(vs) => vs,
            _ => {
                return Err(AnalysisError::InvalidSchema(crate::text::cat3("enum at ", pointer, " must be an array")));
            },
        };
        if path.len() == 0 {
            return Ok(());
        }
        let mut texts: Vec<String> = Vec::new();
        let mut i: usize = 0;
        while i < values.len()
            invariant
                i <= values.len(),
                candidates@ == old(candidates)@,
                all_wf(old(candidates)@),
                texts@.len() == i,
                forall|k: int| 0 <= k < i ==> (#[trigger] texts@[k])@ == values@[k]->Text_0@,
                forall|k: int| 0 <= k < i ==> (#[trigger] values@[k] is Text && values@[k]->Text_0@.len() > 0),
            decreases values.len() - i,
        {
            match &values[i] {
                JsonValue::Text(t) => {
                    if t.as_str().is_empty() {
                        assert(!(values@[i as int] is Text && values@[i as int]->Text_0@.len() > 0));
                        return Ok(());
                    }
                    texts.push(t.clone());
                },
                _ => {
                    assert(!(values@[i as int] is Text));
                    return Ok(());
                },
            }
            i = i + 1;
        }
        let ghost tv = views(texts@);
        assert(tv =~= Seq::new(values@.len(), |k: int| values@[k]->Text_0@));
        assert(enum_texts(values@) == Some(tv));
        if texts.len() == 0 {
            return Ok(());
        }
        let semantic_path = match SemanticPath::new(clone_texts(path)) {
            Ok(p) => p,
            Err(e) => {
                return Err(e);
            },
        };
        let mut candidate_mechanisms = with_mechanism(mechanisms, CandidateMechanism::JsonSchemaProperty);
        candidate_mechanisms.push(CandidateMechanism::JsonSchemaClosedValueSet);
        let evidence_locator = crate::text::cat2(locator, pointer);
        let dotted = semantic_path.dotted();
        let sorted = sorted_texts(clone_texts(&texts));
        let listed = join(sorted.as_slice(), ",");
        proof {
            lemma_sorted_texts_ascending(sorted@);
            assert(views(sorted@) =~= sorted@.map_values(|s: String| s@));
            assert(views(sorted@).to_set() =~= tv.to_set());
            assert(ascending_by(views(sorted@), text_key_fn()) && views(sorted@).to_set() == tv.to_set());
            let chosen = ascending_of(tv.to_set(), text_key_fn());
            lemma_ascending_unique(chosen, views(sorted@), text_key_fn());
        }
        let evidence = vec![
            CandidateEvidence {
                source: context.source.clone(),
                revision: clone_revision(&context.revision),
                locator: evidence_locator.clone(),
                fact: crate::text::cat2("explicit schema property path ", dotted.as_str()),
            },
            CandidateEvidence {
                source: context.source.clone(),
                revision: clone_revision(&context.revision),
                locator: evidence_locator,
                fact: crate::text::cat3("closed string enum [", listed.as_str(), "]"),
            },
        ];
        let ghost ev = crate::analysis::candidate::evidence_views(evidence@);
        let ghost mech = candidate_mechanisms@;
        let ghost spec_mechs = mechanisms@.push(CandidateMechanism::JsonSchemaProperty).push(CandidateMechanism::JsonSchemaClosedValueSet);
        assert(mech == spec_mechs);
        assert(semantic_path@ == views(path@));
        assert(valid_path(views(path@)));
        assert(ev =~= seq![
            EvidenceView {
                source: context.source@,
                revision: context.revision@,
                locator: locator@ + pointer@,
                fact: "explicit schema property path "@ + joined(views(path@), "."@),
            },
            EvidenceView {
                source: context.source@,
                revision: context.revision@,
                locator: locator@ + pointer@,
                fact: "closed string enum ["@ + joined(ascending_of(tv.to_set(), text_key_fn()), ","@) + "]"@,
            },
        ]);
        let facets = vec![ContractFacet::Structure];
        assert(facets@ == seq![ContractFacet::Structure]);
        let candidate = match RepresentationCandidate::new(
            RepresentationKind::Schema,
            owned(pointer),
            owned(locator),
            facets,
            semantic_path,
            Some(texts),
            candidate_mechanisms,
            evidence,
        ) {
            Ok(c) => c,
            Err(e) => {
                return Err(e);
            },
        };
        assert(candidate_problem(pointer@, locator@, seq![ContractFacet::Structure], Some(tv), spec_mechs, ev) is None);
        assert(enum_candidate(context.source@, context.revision@, locator@, views(path@), pointer@, mechanisms@, tv) == Ok::<CandidateView, AnalysisErrorView>(candidate@));
        assert(schema_walk(*root, *node, context.source@, context.revision@, locator@, views(path@), pointer@, mechanisms@, act) == Ok::<Seq<CandidateView>, AnalysisErrorView>(seq![candidate@]));
        let ghost before = candidates@;
        candidates.push(candidate);
        assert(candidate_views(candidates@) =~= candidate_views(before).push(candidate@));
        assert(candidates@.take(before.len() as int) =~= before);
        return Ok(());
    }
    let ghost start = candidates@;
    if let Some(properties_value) = get_member(members, "properties") {
        let props = match properties_value {
            JsonValue::Object(ps) => ps,
            _ => {
                return Err(AnalysisError::InvalidSchema(crate::text::cat3("properties at ", pointer, " must be an object")));
            },
        };
        let ghost psv = props@;
        let next_mechanisms = with_mechanism(mechanisms, CandidateMechanism::JsonSchemaProperty);
        let mut i: usize = 0;
        while i < props.len()
            invariant
                i <= props.len(),
                psv == props@,
                all_wf(candidates@),
                refs(*properties_value).subset_of(refs(*root)),
                *properties_value == JsonValue::Object(*props),
                act == views(active@).to_set(),
                act.subset_of(refs(*root)),
                next_mechanisms@ == mechanisms@.push(CandidateMechanism::JsonSchemaProperty),
                decreases_to!(*node => *properties_value),
                property_walk(*root, psv, i as int, context.source@, context.revision@, locator@, views(path@), pointer@, mechanisms@, act)
                    matches Ok(cs) && candidate_views(candidates@) == candidate_views(start) + cs,
                extends(start, candidates@),
            decreases props.len() - i,
        {
            let next_path = with_text(path, props[i].key.as_str());
            let mut next_pointer = owned(pointer);
            push_str(&mut next_pointer, "/properties/");
            push_escaped_segment(&mut next_pointer, props[i].key.as_str());
            proof {
                lemma_member_refs(*properties_value, i as int);
                assert(decreases_to!(*properties_value => (*properties_value)->Object_0));
                assert(decreases_to!((*properties_value)->Object_0 => psv));
                assert(decreases_to!(psv => psv[i as int]));
                assert(decreases_to!(psv[i as int] => psv[i as int].value));
            }
            let ghost before = candidates@;
            let step = walk_node(root, &props[i].value, context, locator, &next_path, next_pointer.as_str(), &next_mechanisms, active, candidates);
            proof {
                lemma_extends_trans(start, before, candidates@);
            }
            if let Err(e) = step {
                proof {
                    lemma_property_walk_err(*root, psv, i + 1, psv.len() as int, context.source@, context.revision@, locator@, views(path@), pointer@, mechanisms@, act);
                }
                return Err(e);
            }
            proof {
                assert(candidate_views(candidates@) =~= candidate_views(start) + (property_walk(*root, psv, i as int, context.source@, context.revision@, locator@, views(path@), pointer@, mechanisms@, act)->Ok_0 + schema_walk(*root, psv[i as int].value, context.source@, context.revision@, locator@, views(path@).push(psv[i as int].key@), pointer@ + "/properties/"@ + escape_pointer(psv[i as int].key@), mechanisms@.push(CandidateMechanism::JsonSchemaProperty), act)->Ok_0));
            }
            i = i + 1;
        }
    }
    if let Some(additional) = get_member(members, "additionalProperties") {
        if let JsonValue::Object(_) = additional {
            let mut next_pointer = owned(pointer);
            push_str(&mut next_pointer, "/additionalProperties");
            proof {
                let i = choose|i: int| 0 <= i < ms.len() && #[trigger] ms[i].value == member_value(ms, "additionalProperties"@)->Some_0;
                assert(decreases_to!(*node => (*node)->Object_0));
                assert(decreases_to!((*node)->Object_0 => ms));
                assert(decreases_to!(ms => ms[i]));
                assert(decreases_to!(ms[i] => ms[i].value));
            }
            let ghost mid = candidates@;
            let step = walk_node(root, additional, context, locator, path, next_pointer.as_str(), mechanisms, active, candidates);
            proof {
                lemma_extends_trans(start, mid, candidates@);
            }
            if let Err(e) = step {
                return Err(e);
            }
            assert(candidate_views(candidates@) =~= candidate_views(start) + (candidate_views(mid).skip(candidate_views(start).len() as int) + candidate_views(candidates@).skip(candidate_views(mid).len() as int)));
        }
    }
    Ok(())
}

/// The candidates of a schema document: walked from the root with an empty path,
/// then ordered by path, identity and locator (stably) with repeats dropped.
pub open spec fn schema_candidates(
    source: Seq<char>,
    revision: RevisionView,
    locator: Seq<char>,
    document: Result<JsonValue, Seq<char>>,
) -> Result<Seq<CandidateView>, AnalysisErrorView> {
    if !is_clean(locator) {
        schema_error("schema locator must be nonempty and trimmed"@)
    } else {
        match document {
            Err(m) => schema_error(m),
            Ok(root) => if !(root is Object) {
                schema_error("schema document root must be an object"@)
            } else {
                match schema_walk(root, root, source, revision, locator, Seq::empty(), "#"@, Seq::empty(), Set::empty()) {
                    Err(e) => Err(e),
                    Ok(cs) => Ok(dedup_seq(stable_sort_by(cs, candidate_key_fn()))),
                }
            },
        }
    }
}

/// Extracts the closed-value representation candidates of a JSON Schema document.
pub fn extract_json_schema_candidates(
    context: &AnalysisSourceContext,
    locator: &str,
    bytes: &[u8],
) -> (r: Result<Vec<RepresentationCandidate>, AnalysisError>)
    ensures
        match schema_candidates(context.source@, context.revision@, locator@, json_document(bytes@)) {
            Ok(cs) => r matches Ok(v) && candidate_views(v@) == cs && all_wf(v@),
            Err(e) => r matches Err(x) && x@ == e,
        },
{
    schema_document_candidates(context, locator, parse_json(bytes))
}

/// The closed-value representation candidates of a schema document that has
/// been parsed, or the message of the parse that failed.
pub fn schema_document_candidates(
    context: &AnalysisSourceContext,
    locator: &str,
    document: Result<JsonValue, String>,
) -> (r: Result<Vec<RepresentationCandidate>, AnalysisError>)
    ensures
        match schema_candidates(context.source@, context.revision@, locator@, json_result_view(document)) {
            Ok(cs) => r matches Ok(v) && candidate_views(v@) == cs && all_wf(v@),
            Err(e) => r matches Err(x) && x@ == e,
        },
{
    if !text_is_clean(locator) {
        return Err(AnalysisError::InvalidSchema(owned("schema locator must be nonempty and trimmed")));
    }
    let root = match document {
        Ok(v) => v,
        Err(m) => {
            return Err(AnalysisError::InvalidSchema(m));
        },
    };
    if !matches!(root, JsonValue::Object(_)) {
        return Err(AnalysisError::InvalidSchema(owned("schema document root must be an object")));
    }
    let mut candidates: Vec<RepresentationCandidate> = Vec::new();
    let path: Vec<String> = Vec::new();
    let mechanisms: Vec<CandidateMechanism> = Vec::new();
    let active: Vec<String> = Vec::new();
    proof {
        assert(views(active@).to_set() =~= Set::<Seq<char>>::empty());
        assert(views(path@) =~= Seq::<Seq<char>>::empty());
        assert(mechanisms@ =~= Seq::<CandidateMechanism>::empty());
    }
    match walk_node(&root, &root, context, locator, &path, "#", &mechanisms, &active, &mut candidates) {
        Ok(()) => {},
        Err(e) => {
            return Err(e);
        },
    }
    assert(candidate_views(candidates@) =~= schema_walk(root, root, context.source@, context.revision@, locator@, Seq::empty(), "#"@, Seq::empty(), Set::empty())->Ok_0);
    Ok(normalize_candidates(candidates))
}

} // verus!
