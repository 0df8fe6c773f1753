//! Assembly does not depend on the order in which candidates are given: the
//! total order of candidates is a key that determines a well-formed candidate,
//! the alignment decisions depend only on how often each candidate occurs, and
//! every other part of the assembly follows the total order.

use vstd::prelude::*;
use vstd::multiset::*;
use crate::analysis::alignment::{
    aligned_paths, alignment, alignment_upto, decision, group, group_error, group_evidence, key_order,
    key_order_fn, key_view_fn, mixed, on_path, path_of_fn, CandidateKeyView,
};
use crate::analysis::assembly::{
    assembly, closed_key, facet_key_fn, first_outside, full_key, full_key_fn, list_body, list_key,
    mechanism_key_fn, ordered, outside, AssemblyView,
};
use crate::analysis::candidate::{
    all_valid, candidate_views, evidence_key, evidence_key_fn, lemma_evidence_key_injective, evidence_views, mechanism_rank, CandidateView,
    EvidenceView, RepresentationCandidate,
};
use crate::analysis::error::AnalysisErrorView;
use crate::model::{facet_rank, kind_rank, ContractFacet, RevisionView, revision_key};
use crate::order::{
    ascending_by, ascending_of, dedup_seq, key_lt, key_of, lemma_ascending_unique, lemma_insert_multiset, lemma_key_lt_total,
    lemma_stable_sort_contains, lemma_stable_sort_ordered, lemma_stable_sort_permutes, lemma_text_key_injective,
    lemma_texts_key_prefix_injective, ordered_by, rank_key, stable_sort_by, text_key, text_key_fn, texts_key,
};
use crate::text::views;

verus! {

broadcast use vstd::seq_lib::group_to_multiset_ensures;

/// A key function whose keys can be read back from the front of a longer key.
pub open spec fn reads_back<T>(f: spec_fn(T) -> Seq<u32>) -> bool {
    forall|a: T, b: T, x: Seq<u32>, y: Seq<u32>|
        #![trigger f(a) + x, f(b) + y]
        f(a) + x == f(b) + y ==> a == b && x == y
}

proof fn lemma_list_body_front(parts: Seq<Seq<u32>>)
    requires
        parts.len() > 0,
    ensures
        list_body(parts) == seq![1u32] + parts[0] + list_body(parts.drop_first()),
    decreases parts.len(),
{
    if parts.len() == 1 {
        assert(parts.drop_last().len() == 0);
        assert(parts.drop_first().len() == 0);
        assert(list_body(parts.drop_last()) =~= Seq::<u32>::empty());
        assert(list_body(parts.drop_first()) =~= Seq::<u32>::empty());
        assert(parts.last() == parts[0]);
        assert(list_body(parts) =~= seq![1u32] + parts[0] + list_body(parts.drop_first()));
    } else {
        let dl = parts.drop_last();
        lemma_list_body_front(dl);
        assert(dl.drop_first() =~= parts.drop_first().drop_last());
        assert(parts.drop_first().last() == parts.last());
        assert(list_body(parts) =~= seq![1u32] + parts[0] + list_body(parts.drop_first()));
    }
}

/// Lists of keys that read back can themselves be read back.
proof fn lemma_list_key_reads_back<T>(f: spec_fn(T) -> Seq<u32>, s1: Seq<T>, x: Seq<u32>, s2: Seq<T>, y: Seq<u32>)
    requires
        reads_back(f),
        list_key(s1.map_values(f)) + x == list_key(s2.map_values(f)) + y,
    ensures
        s1 == s2,
        x == y,
    decreases s1.len(),
{
    let k1 = list_key(s1.map_values(f)) + x;
    let k2 = list_key(s2.map_values(f)) + y;
    if s1.len() == 0 {
        assert(list_body(s1.map_values(f)) =~= Seq::<u32>::empty());
        assert(k1[0] == 0);
        if s2.len() > 0 {
            lemma_list_body_front(s2.map_values(f));
            assert(k2[0] == 1);
        }
        assert(list_body(s2.map_values(f)) =~= Seq::<u32>::empty());
        assert(s1 =~= s2);
        assert(x =~= k1.skip(1));
        assert(y =~= k2.skip(1));
    } else {
        lemma_list_body_front(s1.map_values(f));
        assert(k1[0] == 1);
        if s2.len() == 0 {
            assert(list_body(s2.map_values(f)) =~= Seq::<u32>::empty());
            assert(k2[0] == 0);
        }
        lemma_list_body_front(s2.map_values(f));
        assert(s1.map_values(f).drop_first() =~= s1.drop_first().map_values(f));
        assert(s2.map_values(f).drop_first() =~= s2.drop_first().map_values(f));
        let r1 = list_key(s1.drop_first().map_values(f)) + x;
        let r2 = list_key(s2.drop_first().map_values(f)) + y;
        assert(k1.drop_first() =~= f(s1[0]) + r1);
        assert(k2.drop_first() =~= f(s2[0]) + r2);
        assert(f(s1[0]) + r1 == f(s2[0]) + r2);
        lemma_list_key_reads_back(f, s1.drop_first(), x, s2.drop_first(), y);
        assert(s1 =~= seq![s1[0]] + s1.drop_first());
        assert(s2 =~= seq![s2[0]] + s2.drop_first());
    }
}

proof fn lemma_rank_key_prefix(r: u32, x: Seq<u32>, s: u32, y: Seq<u32>)
    requires
        r < 0xffff_ffff,
        s < 0xffff_ffff,
        rank_key(r) + x == rank_key(s) + y,
    ensures
        r == s,
        x == y,
{
    let k1 = rank_key(r) + x;
    let k2 = rank_key(s) + y;
    assert(k1[0] == r + 1 && k2[0] == s + 1);
    assert(x =~= k1.skip(2));
    assert(y =~= k2.skip(2));
}

proof fn lemma_facet_keys_read_back()
    ensures
        reads_back(facet_key_fn()),
{
    assert forall|a: ContractFacet, b: ContractFacet, x: Seq<u32>, y: Seq<u32>|
        #![trigger facet_key_fn()(a) + x, facet_key_fn()(b) + y]
        facet_key_fn()(a) + x == facet_key_fn()(b) + y implies a == b && x == y by {
        lemma_rank_key_prefix(facet_rank(a), x, facet_rank(b), y);
        assert(facet_rank(a) == facet_rank(b));
    }
}

proof fn lemma_mechanism_keys_read_back()
    ensures
        reads_back(mechanism_key_fn()),
{
    assert forall|a, b, x: Seq<u32>, y: Seq<u32>|
        #![trigger mechanism_key_fn()(a) + x, mechanism_key_fn()(b) + y]
        mechanism_key_fn()(a) + x == mechanism_key_fn()(b) + y implies a == b && x == y by {
        lemma_rank_key_prefix(mechanism_rank(a), x, mechanism_rank(b), y);
        assert(mechanism_rank(a) == mechanism_rank(b));
    }
}

proof fn lemma_text_keys_read_back()
    ensures
        reads_back(text_key_fn()),
{
    assert forall|a: Seq<char>, b: Seq<char>, x: Seq<u32>, y: Seq<u32>|
        #![trigger text_key_fn()(a) + x, text_key_fn()(b) + y]
        text_key_fn()(a) + x == text_key_fn()(b) + y implies a == b && x == y by {
        lemma_text_key_injective(a, x, b, y);
    }
}

proof fn lemma_revision_key_prefix(a: RevisionView, x: Seq<u32>, b: RevisionView, y: Seq<u32>)
    requires
        revision_key(a) + x == revision_key(b) + y,
    ensures
        a == b,
        x == y,
{
    let ta = match a {
        RevisionView::Exact(v) => v,
        _ => Seq::empty(),
    };
    let tb = match b {
        RevisionView::Exact(v) => v,
        _ => Seq::empty(),
    };
    let ra = match a {
        RevisionView::Exact(_) => 0u32,
        RevisionView::Unversioned => 1u32,
        RevisionView::Unknown => 2u32,
    };
    let rb = match b {
        RevisionView::Exact(_) => 0u32,
        RevisionView::Unversioned => 1u32,
        RevisionView::Unknown => 2u32,
    };
    assert(revision_key(a) + x =~= rank_key(ra) + (text_key(ta) + x));
    assert(revision_key(b) + y =~= rank_key(rb) + (text_key(tb) + y));
    lemma_rank_key_prefix(ra, text_key(ta) + x, rb, text_key(tb) + y);
    lemma_text_key_injective(ta, x, tb, y);
}

proof fn lemma_evidence_keys_read_back()
    ensures
        reads_back(evidence_key_fn()),
{
    assert forall|a: EvidenceView, b: EvidenceView, x: Seq<u32>, y: Seq<u32>|
        #![trigger evidence_key_fn()(a) + x, evidence_key_fn()(b) + y]
        evidence_key_fn()(a) + x == evidence_key_fn()(b) + y implies a == b && x == y by {
        let la = text_key(a.locator) + (text_key(a.fact) + x);
        let lb = text_key(b.locator) + (text_key(b.fact) + y);
        assert(evidence_key(a) + x =~= text_key(a.source) + (revision_key(a.revision) + la));
        assert(evidence_key(b) + y =~= text_key(b.source) + (revision_key(b.revision) + lb));
        lemma_text_key_injective(a.source, revision_key(a.revision) + la, b.source, revision_key(b.revision) + lb);
        lemma_revision_key_prefix(a.revision, la, b.revision, lb);
        lemma_text_key_injective(a.locator, text_key(a.fact) + x, b.locator, text_key(b.fact) + y);
        lemma_text_key_injective(a.fact, x, b.fact, y);
    }
}

/// An ascending sequence is the ascending order of its own members.
proof fn lemma_ascending_of_seq<T>(v: Seq<T>, key: spec_fn(T) -> Seq<u32>)
    requires
        ascending_by(v, key),
    ensures
        ascending_of(v.to_set(), key) == v,
{
    let s = ascending_of(v.to_set(), key);
    assert(ascending_by(v, key) && v.to_set() == v.to_set());
    assert(ascending_by(s, key) && s.to_set() == v.to_set());
    lemma_ascending_unique(s, v, key);
}

/// Dropping repeats from a sequence ordered by a key that tells its members
/// apart leaves an ascending sequence with the same members.
proof fn lemma_dedup_ascending<T>(o: Seq<T>, key: spec_fn(T) -> Seq<u32>)
    requires
        ordered_by(o, key),
        forall|x: T, y: T| o.contains(x) && o.contains(y) && key(x) == key(y) ==> x == y,
    ensures
        ascending_by(dedup_seq(o), key),
        dedup_seq(o).to_set() == o.to_set(),
        o.len() > 0 ==> dedup_seq(o).len() > 0 && dedup_seq(o).last() == o.last(),
    decreases o.len(),
{
    if o.len() > 0 {
        let o1 = o.drop_last();
        let x = o.last();
        assert forall|i: int, j: int| 0 <= i < j < o1.len() implies !key_lt(key(#[trigger] o1[j]), key(#[trigger] o1[i])) by {
            assert(o1[i] == o[i] && o1[j] == o[j]);
        }
        assert forall|a: T, b: T| o1.contains(a) && o1.contains(b) && key(a) == key(b) implies a == b by {
            let i = choose|i: int| 0 <= i < o1.len() && o1[i] == a;
            let j = choose|j: int| 0 <= j < o1.len() && o1[j] == b;
            assert(o[i] == a && o[j] == b);
            assert(o.contains(a) && o.contains(b));
        }
        lemma_dedup_ascending(o1, key);
        let d1 = dedup_seq(o1);
        assert(o =~= o1.push(x));
        assert(o.to_set() =~= o1.to_set().insert(x));
        if d1.len() > 0 && d1.last() == x {
            assert(d1.to_set().contains(x));
            assert(o.to_set() =~= d1.to_set());
        } else {
            let d = d1.push(x);
            assert(dedup_seq(o) == d);
            assert forall|k: int| 0 <= k < d1.len() implies key_lt(key(#[trigger] d1[k]), key(x)) by {
                let e = d1[k];
                assert(d1.to_set().contains(e));
                assert(o1.contains(e));
                let i = choose|i: int| 0 <= i < o1.len() && o1[i] == e;
                assert(o[i] == e);
                assert(!key_lt(key(x), key(e)));
                lemma_key_lt_total(key(e), key(x));
                if key(e) == key(x) {
                    assert(o.contains(e) && o.contains(x));
                    assert(e == x);
                    if k < d1.len() - 1 {
                        assert(key_lt(key(d1[k]), key(d1[d1.len() - 1])));
                        assert(o[o1.len() - 1] == d1.last());
                        assert(!key_lt(key(x), key(o[o1.len() - 1])));
                    }
                }
            }
            assert forall|i: int, j: int| 0 <= i < j < d.len() implies key_lt(key(#[trigger] d[i]), key(#[trigger] d[j])) by {
                if j < d1.len() {
                    assert(d[i] == d1[i] && d[j] == d1[j]);
                } else {
                    assert(d[i] == d1[i]);
                }
            }
            crate::order::lemma_push_to_set(d1, x);
            assert(d.to_set() =~= d1.to_set().insert(x));
        }
    }
}

/// A sequence whose members a key tells apart has an ascending order of its members.
proof fn lemma_ascending_of_members<T>(v: Seq<T>, key: spec_fn(T) -> Seq<u32>)
    requires
        forall|x: T, y: T| v.contains(x) && v.contains(y) && key(x) == key(y) ==> x == y,
    ensures
        ascending_by(ascending_of(v.to_set(), key), key),
        ascending_of(v.to_set(), key).to_set() == v.to_set(),
{
    broadcast use group_multiset_axioms;

    let o = stable_sort_by(v, key);
    lemma_stable_sort_ordered(v, key);
    lemma_stable_sort_permutes(v, key);
    assert forall|x: T| o.contains(x) <==> v.contains(x) by {
        assert(o.contains(x) <==> o.to_multiset().count(x) > 0);
        assert(v.contains(x) <==> v.to_multiset().count(x) > 0);
    }
    assert(o.to_set() =~= v.to_set());
    lemma_dedup_ascending(o, key);
    let d = dedup_seq(o);
    assert(ascending_by(d, key) && d.to_set() == v.to_set());
}

spec fn evidence_part(c: RepresentationCandidate) -> Seq<u32> {
    list_key(ascending_of(c@.evidence, evidence_key_fn()).map_values(evidence_key_fn()))
}

spec fn mechanism_part(c: RepresentationCandidate) -> Seq<u32> {
    list_key(c.mechanisms@.map_values(mechanism_key_fn())) + evidence_part(c)
}

spec fn closed_part(c: RepresentationCandidate) -> Seq<u32> {
    closed_key(c@.closed_values) + mechanism_part(c)
}

spec fn facet_part(c: RepresentationCandidate) -> Seq<u32> {
    list_key(c.facets@.map_values(facet_key_fn())) + closed_part(c)
}

spec fn locator_part(c: RepresentationCandidate) -> Seq<u32> {
    text_key(c@.locator) + facet_part(c)
}

spec fn identity_part(c: RepresentationCandidate) -> Seq<u32> {
    text_key(c@.identity) + locator_part(c)
}

spec fn kind_part(c: RepresentationCandidate) -> Seq<u32> {
    rank_key(kind_rank(c@.kind)) + identity_part(c)
}

/// The key of a valid candidate, written with its own sorted parts.
#[verifier::spinoff_prover]
#[verifier::rlimit(40)]
proof fn lemma_full_key_parts(c: RepresentationCandidate)
    requires
        c.valid(),
    ensures
        full_key(c@) == texts_key(c@.path) + kind_part(c),
        c.closed_values matches Some(v) ==> closed_key(c@.closed_values) == seq![2u32] + list_key(
            views(v@).map_values(text_key_fn()),
        ),
{
    lemma_ascending_of_seq(c.facets@, key_of::<ContractFacet>());
    lemma_ascending_of_seq(c.mechanisms@, key_of::<crate::analysis::candidate::CandidateMechanism>());
    if c.closed_values is Some {
        lemma_ascending_of_seq(views(c.closed_values->Some_0@), text_key_fn());
    }
    assert(full_key(c@) =~= texts_key(c@.path) + kind_part(c));
}

/// Two candidates whose evidence has one ascending order hold the same evidence.
proof fn lemma_evidence_order_determines(a: RepresentationCandidate, b: RepresentationCandidate)
    requires
        ascending_of(a@.evidence, evidence_key_fn()) == ascending_of(b@.evidence, evidence_key_fn()),
    ensures
        a@.evidence == b@.evidence,
{
    assert forall|x: EvidenceView, y: EvidenceView|
        #[trigger] evidence_key_fn()(x) == #[trigger] evidence_key_fn()(y) implies x == y by {
        lemma_evidence_key_injective(x, y);
    }
    lemma_ascending_of_members(evidence_views(a.evidence@), evidence_key_fn());
    lemma_ascending_of_members(evidence_views(b.evidence@), evidence_key_fn());
}

/// Two valid candidates with one key are one candidate.
#[verifier::spinoff_prover]
#[verifier::rlimit(40)]
pub proof fn lemma_full_key_determines(a: RepresentationCandidate, b: RepresentationCandidate)
    requires
        a.valid(),
        b.valid(),
        full_key(a@) == full_key(b@),
    ensures
        a@ == b@,
{
    lemma_full_key_parts(a);
    lemma_full_key_parts(b);
    lemma_facet_keys_read_back();
    lemma_mechanism_keys_read_back();
    lemma_text_keys_read_back();
    lemma_evidence_keys_read_back();
    let ev_a = evidence_part(a);
    let ev_b = evidence_part(b);
    let m_a = mechanism_part(a);
    let m_b = mechanism_part(b);
    let c_a = closed_part(a);
    let c_b = closed_part(b);
    let f_a = facet_part(a);
    let f_b = facet_part(b);
    let l_a = locator_part(a);
    let l_b = locator_part(b);
    let i_a = identity_part(a);
    let i_b = identity_part(b);
    let k_a = kind_part(a);
    let k_b = kind_part(b);
    lemma_texts_key_prefix_injective(a@.path, k_a, b@.path, k_b);
    lemma_rank_key_prefix(kind_rank(a@.kind), i_a, kind_rank(b@.kind), i_b);
    assert(a@.kind == b@.kind);
    lemma_text_key_injective(a@.identity, l_a, b@.identity, l_b);
    lemma_text_key_injective(a@.locator, f_a, b@.locator, f_b);
    lemma_list_key_reads_back(facet_key_fn(), a.facets@, c_a, b.facets@, c_b);
    // closed values
    assert(c_a[0] == closed_key(a@.closed_values)[0]);
    assert(c_b[0] == closed_key(b@.closed_values)[0]);
    if a.closed_values is Some && b.closed_values is Some {
        let va = views(a.closed_values->Some_0@);
        let vb = views(b.closed_values->Some_0@);
        assert(c_a =~= seq![2u32] + (list_key(va.map_values(text_key_fn())) + m_a));
        assert(c_b =~= seq![2u32] + (list_key(vb.map_values(text_key_fn())) + m_b));
        assert(c_a.drop_first() =~= list_key(va.map_values(text_key_fn())) + m_a);
        assert(c_b.drop_first() =~= list_key(vb.map_values(text_key_fn())) + m_b);
        lemma_list_key_reads_back(text_key_fn(), va, m_a, vb, m_b);
    } else if a.closed_values is None && b.closed_values is None {
        assert(m_a =~= c_a.drop_first());
        assert(m_b =~= c_b.drop_first());
    } else {
        assert(false);
    }
    lemma_list_key_reads_back(mechanism_key_fn(), a.mechanisms@, ev_a, b.mechanisms@, ev_b);
    assert(ev_a + Seq::<u32>::empty() =~= ev_a);
    assert(ev_b + Seq::<u32>::empty() =~= ev_b);
    let ea = ascending_of(a@.evidence, evidence_key_fn());
    let eb = ascending_of(b@.evidence, evidence_key_fn());
    lemma_list_key_reads_back(evidence_key_fn(), ea, Seq::<u32>::empty(), eb, Seq::<u32>::empty());
    lemma_evidence_order_determines(a, b);
    assert(a@ =~= b@);
}

proof fn lemma_multiset_of_front<T>(s: Seq<T>)
    requires
        s.len() > 0,
    ensures
        s.to_multiset() == s.drop_first().to_multiset().insert(s[0]),
{
    lemma_insert_multiset(s.drop_first(), 0, s[0]);
    assert(s.drop_first().insert(0, s[0]) =~= s);
}

/// Two sequences ordered by one key, holding the same elements as often, are
/// equal when the key tells their elements apart.
pub proof fn lemma_ordered_permutation_equal<T>(a: Seq<T>, b: Seq<T>, key: spec_fn(T) -> Seq<u32>)
    requires
        ordered_by(a, key),
        ordered_by(b, key),
        a.to_multiset() == b.to_multiset(),
        forall|x: T, y: T| a.contains(x) && b.contains(y) && key(x) == key(y) ==> x == y,
    ensures
        a == b,
    decreases a.len(),
{
    if a.len() == 0 {
        assert(b.len() == b.to_multiset().len());
        assert(a =~= b);
    } else {
        assert(b.len() == b.to_multiset().len());
        assert(a.to_multiset().count(a[0]) > 0);
        assert(b.contains(a[0]));
        let j = choose|j: int| 0 <= j < b.len() && b[j] == a[0];
        assert(b.to_multiset().count(b[0]) > 0);
        assert(a.contains(b[0]));
        let i = choose|i: int| 0 <= i < a.len() && a[i] == b[0];
        if j > 0 {
            assert(!key_lt(key(b[j]), key(b[0])));
        }
        if i > 0 {
            assert(!key_lt(key(a[i]), key(a[0])));
        }
        lemma_key_lt_total(key(a[0]), key(b[0]));
        assert(a.contains(a[0]) && b.contains(b[0]));
        assert(a[0] == b[0]);
        let a1 = a.drop_first();
        let b1 = b.drop_first();
        lemma_multiset_of_front(a);
        lemma_multiset_of_front(b);
        assert(a1.to_multiset() =~= b1.to_multiset()) by {
            broadcast use group_multiset_axioms;
            assert forall|y: T| a1.to_multiset().count(y) == b1.to_multiset().count(y) by {
                let x = a[0];
                assert(a.to_multiset().count(y) == b.to_multiset().count(y));
                assert(a1.to_multiset().insert(x).count(y) == b1.to_multiset().insert(x).count(y));
                if y == x {
                    assert(a1.to_multiset().insert(x).count(y) == a1.to_multiset().count(y) + 1);
                    assert(b1.to_multiset().insert(x).count(y) == b1.to_multiset().count(y) + 1);
                } else {
                    assert(a1.to_multiset().insert(x).count(y) == a1.to_multiset().count(y));
                    assert(b1.to_multiset().insert(x).count(y) == b1.to_multiset().count(y));
                }
            }
        }
        assert forall|p: int, q: int| 0 <= p < q < a1.len() implies !key_lt(key(#[trigger] a1[q]), key(#[trigger] a1[p])) by {
            assert(a1[q] == a[q + 1] && a1[p] == a[p + 1]);
        }
        assert forall|p: int, q: int| 0 <= p < q < b1.len() implies !key_lt(key(#[trigger] b1[q]), key(#[trigger] b1[p])) by {
            assert(b1[q] == b[q + 1] && b1[p] == b[p + 1]);
        }
        assert forall|x: T, y: T| a1.contains(x) && b1.contains(y) && key(x) == key(y) implies x == y by {
            let p = choose|p: int| 0 <= p < a1.len() && a1[p] == x;
            let q = choose|q: int| 0 <= q < b1.len() && b1[q] == y;
            assert(a[p + 1] == x && b[q + 1] == y);
            assert(a.contains(x));
            assert(b.contains(y));
        }
        lemma_ordered_permutation_equal(a1, b1, key);
        assert(a =~= seq![a[0]] + a1);
        assert(b =~= seq![b[0]] + b1);
    }
}

/// The evidence of a group is the evidence of its members.
proof fn lemma_group_evidence_members(g: Seq<CandidateView>)
    ensures
        forall|e: EvidenceView| #[trigger] group_evidence(g).contains(e) <==> exists|i: int|
            0 <= i < g.len() && (#[trigger] g[i]).evidence.contains(e),
    decreases g.len(),
{
    if g.len() > 0 {
        lemma_group_evidence_members(g.drop_last());
        assert forall|e: EvidenceView| #[trigger] group_evidence(g).contains(e) <==> exists|i: int|
            0 <= i < g.len() && (#[trigger] g[i]).evidence.contains(e) by {
            if group_evidence(g.drop_last()).contains(e) {
                let i = choose|i: int| 0 <= i < g.drop_last().len() && (#[trigger] g.drop_last()[i]).evidence.contains(e);
                assert(g[i] == g.drop_last()[i]);
            }
            if exists|i: int| 0 <= i < g.len() && (#[trigger] g[i]).evidence.contains(e) {
                let i = choose|i: int| 0 <= i < g.len() && (#[trigger] g[i]).evidence.contains(e);
                if i < g.len() - 1 {
                    assert(g.drop_last()[i] == g[i]);
                }
            }
        }
    }
}

/// Whether some candidate lies outside the provenance does not depend on order.
proof fn lemma_first_outside_none(cs: Seq<CandidateView>, source: Seq<char>, revision: RevisionView)
    ensures
        first_outside(cs, source, revision) is None <==> forall|i: int| 0 <= i < cs.len() ==> !outside(
            #[trigger] cs[i],
            source,
            revision,
        ),
    decreases cs.len(),
{
    if cs.len() > 0 {
        lemma_first_outside_none(cs.drop_first(), source, revision);
        if first_outside(cs, source, revision) is None {
            assert forall|i: int| 0 <= i < cs.len() implies !outside(#[trigger] cs[i], source, revision) by {
                if i > 0 {
                    assert(cs[i] == cs.drop_first()[i - 1]);
                }
            }
        }
        if forall|i: int| 0 <= i < cs.len() ==> !outside(#[trigger] cs[i], source, revision) {
            assert(!outside(cs[0], source, revision));
            assert forall|i: int| 0 <= i < cs.drop_first().len() implies !outside(
                #[trigger] cs.drop_first()[i],
                source,
                revision,
            ) by {
                assert(cs.drop_first()[i] == cs[i + 1]);
            }
        }
    }
}

/// Filtering keeps each element that passes as often as it occurs.
proof fn lemma_filter_count<T>(s: Seq<T>, p: spec_fn(T) -> bool, x: T)
    ensures
        s.filter(p).to_multiset().count(x) == (if p(x) {
            s.to_multiset().count(x)
        } else {
            0
        }),
    decreases s.len(),
{
    broadcast use group_multiset_axioms;

    reveal(Seq::filter);
    if s.len() > 0 {
        lemma_filter_count(s.drop_last(), p, x);
        assert(s =~= s.drop_last().push(s.last()));
        if p(s.last()) {
            assert(s.filter(p) == s.drop_last().filter(p).push(s.last()));
        } else {
            assert(s.filter(p) == s.drop_last().filter(p));
        }
    }
}

/// Filtering two permutations of one another gives two permutations.
proof fn lemma_filter_permutes<T>(a: Seq<T>, b: Seq<T>, p: spec_fn(T) -> bool)
    requires
        a.to_multiset() == b.to_multiset(),
    ensures
        a.filter(p).to_multiset() == b.filter(p).to_multiset(),
{
    assert forall|x: T| a.filter(p).to_multiset().count(x) == b.filter(p).to_multiset().count(x) by {
        lemma_filter_count(a, p, x);
        lemma_filter_count(b, p, x);
    }
    assert(a.filter(p).to_multiset() =~= b.filter(p).to_multiset());
}

/// A permutation of a pair is the pair or the pair swapped.
proof fn lemma_pair_permutes<T>(a: Seq<T>, b: Seq<T>)
    requires
        a.len() == 2,
        a.to_multiset() == b.to_multiset(),
    ensures
        b.len() == 2,
        (b[0] == a[0] && b[1] == a[1]) || (b[0] == a[1] && b[1] == a[0]),
{
    broadcast use group_multiset_axioms;

    assert(b.len() == b.to_multiset().len());
    assert(a =~= Seq::<T>::empty().push(a[0]).push(a[1]));
    assert(b =~= Seq::<T>::empty().push(b[0]).push(b[1]));
    assert(a.to_multiset() == Multiset::<T>::empty().insert(a[0]).insert(a[1]));
    assert(b.to_multiset() == Multiset::<T>::empty().insert(b[0]).insert(b[1]));
    assert(a.to_multiset().count(b[0]) > 0);
    assert(a.to_multiset().count(b[1]) > 0);
    assert(b.to_multiset().count(a[0]) > 0);
    assert(b.to_multiset().count(a[1]) > 0);
}

/// The key of a candidate key tells candidate keys apart.
proof fn lemma_key_order_injective(a: CandidateKeyView, b: CandidateKeyView)
    requires
        key_order(a) == key_order(b),
    ensures
        a == b,
{
    let ra = rank_key(kind_rank(a.kind)) + (text_key(a.identity) + text_key(a.locator));
    let rb = rank_key(kind_rank(b.kind)) + (text_key(b.identity) + text_key(b.locator));
    assert(key_order(a) =~= text_key(a.source) + (revision_key(a.revision) + ra));
    assert(key_order(b) =~= text_key(b.source) + (revision_key(b.revision) + rb));
    lemma_text_key_injective(a.source, revision_key(a.revision) + ra, b.source, revision_key(b.revision) + rb);
    lemma_revision_key_prefix(a.revision, ra, b.revision, rb);
    lemma_rank_key_prefix(
        kind_rank(a.kind),
        text_key(a.identity) + text_key(a.locator),
        kind_rank(b.kind),
        text_key(b.identity) + text_key(b.locator),
    );
    assert(a.kind == b.kind);
    lemma_text_key_injective(a.identity, text_key(a.locator), b.identity, text_key(b.locator));
    assert(text_key(a.locator) + Seq::<u32>::empty() =~= text_key(a.locator));
    assert(text_key(b.locator) + Seq::<u32>::empty() =~= text_key(b.locator));
    lemma_text_key_injective(a.locator, Seq::<u32>::empty(), b.locator, Seq::<u32>::empty());
}

/// A candidate whose evidence all lies inside the provenance does not mix provenance.
proof fn lemma_inside_not_mixed(c: CandidateView, source: Seq<char>, revision: RevisionView)
    requires
        !outside(c, source, revision),
    ensures
        !mixed(c),
{
    if mixed(c) {
        let (x, y) = choose|x: EvidenceView, y: EvidenceView|
            c.evidence.contains(x) && c.evidence.contains(y) && (x.source != y.source || x.revision != y.revision);
        assert(!(x.source != source || x.revision != revision));
        assert(!(y.source != source || y.revision != revision));
    }
}

/// On one path, two permutations of candidates inside the provenance give one
/// decision, and neither group mixes provenance.
proof fn lemma_decision_alike(
    va: Seq<CandidateView>,
    vb: Seq<CandidateView>,
    p: Seq<Seq<char>>,
    source: Seq<char>,
    revision: RevisionView,
)
    requires
        va.to_multiset() == vb.to_multiset(),
        forall|i: int| 0 <= i < va.len() ==> !outside(#[trigger] va[i], source, revision),
    ensures
        group_error(group(va, p)) is None,
        group_error(group(vb, p)) is None,
        decision(va, p) == decision(vb, p),
{
    let ga = group(va, p);
    let gb = group(vb, p);
    lemma_filter_permutes(va, vb, on_path(p));
    assert forall|c: CandidateView| ga.contains(c) || gb.contains(c) implies !mixed(c) by {
        if ga.contains(c) {
            va.lemma_filter_contains_rev(on_path(p), c);
        } else {
            vb.lemma_filter_contains_rev(on_path(p), c);
            assert(vb.to_multiset().count(c) > 0);
        }
        assert(va.to_multiset().count(c) > 0);
        let i = choose|i: int| 0 <= i < va.len() && va[i] == c;
        lemma_inside_not_mixed(va[i], source, revision);
    }
    // the state
    assert(ga.len() == ga.to_multiset().len());
    assert(gb.len() == gb.to_multiset().len());
    if ga.len() == 2 {
        lemma_pair_permutes(ga, gb);
    }
    // the evidence
    lemma_group_evidence_members(ga);
    lemma_group_evidence_members(gb);
    assert(group_evidence(ga) =~= group_evidence(gb)) by {
        assert forall|e: EvidenceView| group_evidence(ga).contains(e) <==> group_evidence(gb).contains(e) by {
            if group_evidence(ga).contains(e) {
                let i = choose|i: int| 0 <= i < ga.len() && (#[trigger] ga[i]).evidence.contains(e);
                assert(ga.to_multiset().count(ga[i]) > 0);
                let j = choose|j: int| 0 <= j < gb.len() && gb[j] == ga[i];
                assert(gb[j].evidence.contains(e));
            }
            if group_evidence(gb).contains(e) {
                let j = choose|j: int| 0 <= j < gb.len() && (#[trigger] gb[j]).evidence.contains(e);
                assert(gb.to_multiset().count(gb[j]) > 0);
                let i = choose|i: int| 0 <= i < ga.len() && ga[i] == gb[j];
                assert(ga[i].evidence.contains(e));
            }
        }
    }
    // the candidate keys
    let ka = ga.map_values(key_view_fn());
    let kb = gb.map_values(key_view_fn());
    crate::order::lemma_map_permutes(ga, gb, key_view_fn());
    let sa = stable_sort_by(ka, key_order_fn());
    let sb = stable_sort_by(kb, key_order_fn());
    lemma_stable_sort_ordered(ka, key_order_fn());
    lemma_stable_sort_ordered(kb, key_order_fn());
    lemma_stable_sort_permutes(ka, key_order_fn());
    lemma_stable_sort_permutes(kb, key_order_fn());
    assert forall|x: CandidateKeyView, y: CandidateKeyView|
        sa.contains(x) && sb.contains(y) && key_order_fn()(x) == key_order_fn()(y) implies x == y by {
        lemma_key_order_injective(x, y);
    }
    lemma_ordered_permutation_equal(sa, sb, key_order_fn());
}

/// The alignments of the first `k` paths of two permutations of candidates
/// inside the provenance are alike and without error.
proof fn lemma_alignment_upto_alike(
    va: Seq<CandidateView>,
    vb: Seq<CandidateView>,
    ps: Seq<Seq<Seq<char>>>,
    k: int,
    source: Seq<char>,
    revision: RevisionView,
)
    requires
        va.to_multiset() == vb.to_multiset(),
        forall|i: int| 0 <= i < va.len() ==> !outside(#[trigger] va[i], source, revision),
    ensures
        alignment_upto(va, ps, k) is Ok,
        alignment_upto(va, ps, k) == alignment_upto(vb, ps, k),
    decreases k,
{
    if 0 < k <= ps.len() {
        lemma_alignment_upto_alike(va, vb, ps, k - 1, source, revision);
        lemma_decision_alike(va, vb, ps[k - 1], source, revision);
    }
}

/// Two permutations of candidates inside the provenance align alike, without error.
proof fn lemma_alignment_alike(va: Seq<CandidateView>, vb: Seq<CandidateView>, source: Seq<char>, revision: RevisionView)
    requires
        va.to_multiset() == vb.to_multiset(),
        forall|i: int| 0 <= i < va.len() ==> !outside(#[trigger] va[i], source, revision),
    ensures
        alignment(va) is Ok,
        alignment(va) == alignment(vb),
        aligned_paths(va) == aligned_paths(vb),
{
    assert(va.to_set() =~= vb.to_set()) by {
        assert forall|x: CandidateView| va.to_set().contains(x) <==> vb.to_set().contains(x) by {
            assert(va.contains(x) <==> va.to_multiset().count(x) > 0);
            assert(vb.contains(x) <==> vb.to_multiset().count(x) > 0);
        }
    }
    va.lemma_to_set_map_commutes(path_of_fn());
    vb.lemma_to_set_map_commutes(path_of_fn());
    assert(aligned_paths(va) == aligned_paths(vb));
    let ps = aligned_paths(va);
    lemma_alignment_upto_alike(va, vb, ps, ps.len() as int, source, revision);
}

/// Assembling candidates does not depend on the order in which they are
/// given: two lists of valid candidates that hold the same candidates,
/// each as often, are both refused or both assembled, and then alike.
pub proof fn law_assembly_is_order_independent(
    repository: Seq<char>,
    source: Seq<char>,
    namespace: Seq<char>,
    revision: RevisionView,
    a: Seq<RepresentationCandidate>,
    b: Seq<RepresentationCandidate>,
)
    requires
        all_valid(a),
        all_valid(b),
        candidate_views(a).to_multiset() == candidate_views(b).to_multiset(),
    ensures
        assembly(repository, source, namespace, revision, candidate_views(a)) is Ok <==> assembly(
            repository,
            source,
            namespace,
            revision,
            candidate_views(b),
        ) is Ok,
        assembly(repository, source, namespace, revision, candidate_views(a)) is Ok ==> assembly(
            repository,
            source,
            namespace,
            revision,
            candidate_views(a),
        ) == assembly(repository, source, namespace, revision, candidate_views(b)),
{
    let va = candidate_views(a);
    let vb = candidate_views(b);
    // the same members
    assert forall|x: CandidateView| va.contains(x) <==> vb.contains(x) by {
        assert(va.contains(x) <==> va.to_multiset().count(x) > 0);
        assert(vb.contains(x) <==> vb.to_multiset().count(x) > 0);
    }
    // refusal
    lemma_first_outside_none(va, source, revision);
    lemma_first_outside_none(vb, source, revision);
    if first_outside(va, source, revision) is None {
        assert forall|i: int| 0 <= i < vb.len() implies !outside(#[trigger] vb[i], source, revision) by {
            assert(vb.contains(vb[i]));
            let k = choose|k: int| 0 <= k < va.len() && va[k] == vb[i];
        }
    }
    if first_outside(vb, source, revision) is None {
        assert forall|i: int| 0 <= i < va.len() implies !outside(#[trigger] va[i], source, revision) by {
            assert(va.contains(va[i]));
            let k = choose|k: int| 0 <= k < vb.len() && vb[k] == va[i];
        }
    }
    // the order of candidates
    let sa = ordered(va);
    let sb = ordered(vb);
    lemma_stable_sort_ordered(va, full_key_fn());
    lemma_stable_sort_ordered(vb, full_key_fn());
    lemma_stable_sort_permutes(va, full_key_fn());
    lemma_stable_sort_permutes(vb, full_key_fn());
    lemma_stable_sort_contains(va, full_key_fn());
    lemma_stable_sort_contains(vb, full_key_fn());
    assert forall|x: CandidateView, y: CandidateView| sa.contains(x) && sb.contains(y) && full_key_fn()(x)
        == full_key_fn()(y) implies x == y by {
        let p = choose|p: int| 0 <= p < sa.len() && sa[p] == x;
        let q = choose|q: int| 0 <= q < sb.len() && sb[q] == y;
        assert(va.contains(sa[p]));
        assert(vb.contains(sb[q]));
        let i = choose|i: int| 0 <= i < va.len() && va[i] == x;
        let j = choose|j: int| 0 <= j < vb.len() && vb[j] == y;
        assert(va[i] == a[i]@ && vb[j] == b[j]@);
        assert(a[i].valid() && b[j].valid());
        lemma_full_key_determines(a[i], b[j]);
    }
    lemma_ordered_permutation_equal(sa, sb, full_key_fn());
    // the decisions
    if first_outside(va, source, revision) is None {
        lemma_alignment_alike(va, vb, source, revision);
        assert(first_outside(vb, source, revision) is None);
        assert(sa == sb);
    }
}

} // verus!
