//! Aggregating case results: grouping cases into repository and scenario
//! scopes, and pooling the counts of the scored cases of a scope.

use vstd::prelude::*;
use crate::benchmark::runner::CaseRun;
use crate::benchmark::score::{CaseCounts, Counts};
use crate::order::{
    ascending_by, key_lt, lemma_key_lt_irreflexive, lemma_sorted_texts_ascending, same_members, sorted_texts, text_key,
    text_key_fn,
};
use crate::text::{clone_texts, text_eq, views};

verus! {

/// The positions, in order, of the first `n` keys that equal `k`.
pub open spec fn members_of(keys: Seq<Seq<char>>, k: Seq<char>, n: int) -> Seq<usize>
    decreases n,
{
    if n <= 0 {
        Seq::empty()
    } else {
        let m = members_of(keys, k, n - 1);
        if keys[n - 1] == k {
            m.push((n - 1) as usize)
        } else {
            m
        }
    }
}

pub open spec fn group_names(groups: Seq<(String, Vec<usize>)>) -> Seq<Seq<char>> {
    groups.map_values(|g: (String, Vec<usize>)| g.0@)
}

/// Groups positions by key: one group per distinct key, in ascending key
/// order, each holding the positions of that key in order.
pub fn scope_groups(keys: &Vec<String>) -> (r: Vec<(String, Vec<usize>)>)
    ensures
        ascending_by(group_names(r@), text_key_fn()),
        same_members(group_names(r@), views(keys@)),
        forall|g: int| 0 <= g < r@.len() ==> (#[trigger] r@[g]).1@ == members_of(views(keys@), r@[g].0@, keys@.len() as int),
{
    let names = sorted_texts(clone_texts(keys));
    proof {
        lemma_sorted_texts_ascending(names@);
    }
    let ghost kv = views(keys@);
    let mut r: Vec<(String, Vec<usize>)> = Vec::new();
    let mut g: usize = 0;
    while g < names.len()
        invariant
            g <= names@.len(),
            kv == views(keys@),
            r@.len() == g,
            forall|q: int| 0 <= q < g ==> (#[trigger] r@[q]).0@ == names@[q]@,
            forall|q: int| 0 <= q < g ==> (#[trigger] r@[q]).1@ == members_of(kv, r@[q].0@, keys@.len() as int),
        decreases names.len() - g,
    {
        let name = &names[g];
        let mut members: Vec<usize> = Vec::new();
        let mut i: usize = 0;
        while i < keys.len()
            invariant
                i <= keys@.len(),
                kv == views(keys@),
                members@ == members_of(kv, name@, i as int),
            decreases keys.len() - i,
        {
            if text_eq(keys[i].as_str(), name.as_str()) {
                members.push(i);
            }
            i = i + 1;
        }
        r.push((name.clone(), members));
        g = g + 1;
    }
    assert(group_names(r@) =~= names@.map_values(|s: String| s@));
    r
}

proof fn lemma_members_of(keys: Seq<Seq<char>>, k: Seq<char>, n: int, i: int)
    requires
        0 <= n <= keys.len(),
        keys.len() <= usize::MAX,
        0 <= i < keys.len(),
    ensures
        members_of(keys, k, n).contains(i as usize) <==> (i < n && keys[i] == k),
    decreases n,
{
    if n > 0 {
        lemma_members_of(keys, k, n - 1, i);
        let m = members_of(keys, k, n - 1);
        if keys[n - 1] == k {
            let p = m.push((n - 1) as usize);
            assert(p[m.len() as int] == (n - 1) as usize);
            if p.contains(i as usize) && i != n - 1 {
                let j = choose|j: int| 0 <= j < p.len() && #[trigger] p[j] == i as usize;
                if j < m.len() {
                    assert(m[j] == i as usize);
                }
            }
            if 0 <= i < n - 1 && keys[i] == k {
                let j = choose|j: int| 0 <= j < m.len() && #[trigger] m[j] == i as usize;
                assert(p[j] == i as usize);
            }
        }
    }
}

/// Every case lands in exactly one scope: the groups of distinct, ascending
/// names that hold the same names as the keys split the positions of the
/// keys among them.
pub proof fn law_scopes_partition_the_cases(keys: Seq<Seq<char>>, names: Seq<Seq<char>>, i: int)
    requires
        ascending_by(names, text_key_fn()),
        same_members(names, keys),
        keys.len() <= usize::MAX,
        0 <= i < keys.len(),
    ensures
        exists|g: int| 0 <= g < names.len() && #[trigger] members_of(keys, names[g], keys.len() as int).contains(i as usize),
        forall|g: int, h: int|
            0 <= g < names.len() && 0 <= h < names.len() && #[trigger] members_of(keys, names[g], keys.len() as int).contains(
                i as usize,
            ) && #[trigger] members_of(keys, names[h], keys.len() as int).contains(i as usize) ==> g == h,
{
    let n = keys.len() as int;
    assert(keys.contains(keys[i]));
    let g = choose|g: int| 0 <= g < names.len() && names[g] == keys[i];
    lemma_members_of(keys, names[g], n, i);
    assert forall|g1: int, h1: int|
        0 <= g1 < names.len() && 0 <= h1 < names.len() && #[trigger] members_of(keys, names[g1], n).contains(i as usize)
            && #[trigger] members_of(keys, names[h1], n).contains(i as usize) implies g1 == h1 by {
        lemma_members_of(keys, names[g1], n, i);
        lemma_members_of(keys, names[h1], n, i);
        if g1 != h1 {
            if g1 < h1 {
                assert(key_lt(text_key_fn()(names[g1]), text_key_fn()(names[h1])));
            } else {
                assert(key_lt(text_key_fn()(names[h1]), text_key_fn()(names[g1])));
            }
            lemma_key_lt_irreflexive(text_key(names[g1]));
        }
    }
}

/// Saturating addition of two counts.
pub open spec fn saturating(a: int) -> u64 {
    if a > u64::MAX {
        u64::MAX
    } else {
        a as u64
    }
}

/// Adds one case's counts to a running total, saturating each part.
pub open spec fn add_counts(p: Counts, c: Counts) -> Counts {
    Counts { numerator: saturating(p.numerator + c.numerator), denominator: saturating(p.denominator + c.denominator) }
}

/// The counts of all cases pooled: numerators and denominators summed,
/// saturating at the largest `u64`.
pub open spec fn pooled(s: Seq<Counts>) -> Counts
    decreases s.len(),
{
    if s.len() == 0 {
        Counts { numerator: 0, denominator: 0 }
    } else {
        add_counts(pooled(s.drop_last()), s.last())
    }
}

/// The pooled counts of the cases that have some, or none when no case has.
pub open spec fn pooled_present(s: Seq<Option<Counts>>) -> Option<Counts>
    decreases s.len(),
{
    if s.len() == 0 {
        None
    } else {
        let p = pooled_present(s.drop_last());
        match s.last() {
            None => p,
            Some(c) => match p {
                None => Some(add_counts(Counts { numerator: 0, denominator: 0 }, c)),
                Some(q) => Some(add_counts(q, c)),
            },
        }
    }
}

fn saturating_add(a: u64, b: u64) -> (r: u64)
    ensures
        r == saturating(a + b),
{
    if a > u64::MAX - b {
        u64::MAX
    } else {
        a + b
    }
}

fn add_exec(p: Counts, c: Counts) -> (r: Counts)
    ensures
        r == add_counts(p, c),
{
    Counts {
        numerator: saturating_add(p.numerator, c.numerator),
        denominator: saturating_add(p.denominator, c.denominator),
    }
}

/// The counts of a metric of every case of a scope.
pub open spec fn metric_of<'a>(scores: Seq<&'a CaseCounts>, f: spec_fn(CaseCounts) -> Counts) -> Seq<Counts> {
    scores.map_values(|c: &'a CaseCounts| f(*c))
}

pub open spec fn precision_of() -> spec_fn(CaseCounts) -> Counts {
    |c: CaseCounts| c.contract_precision
}

pub open spec fn recall_of() -> spec_fn(CaseCounts) -> Counts {
    |c: CaseCounts| c.contract_recall
}

pub open spec fn false_rate_of() -> spec_fn(CaseCounts) -> Counts {
    |c: CaseCounts| c.false_contract_rate
}

pub open spec fn authority_of() -> spec_fn(CaseCounts) -> Counts {
    |c: CaseCounts| c.authority_correctness
}

pub open spec fn relation_precision_of() -> spec_fn(CaseCounts) -> Counts {
    |c: CaseCounts| c.relationship_precision
}

pub open spec fn relation_recall_of() -> spec_fn(CaseCounts) -> Counts {
    |c: CaseCounts| c.relationship_recall
}

pub open spec fn finding_precision_of() -> spec_fn(CaseCounts) -> Counts {
    |c: CaseCounts| c.finding_precision
}

pub open spec fn finding_recall_of() -> spec_fn(CaseCounts) -> Counts {
    |c: CaseCounts| c.finding_recall
}

pub open spec fn lifecycles_of<'a>(scores: Seq<&'a CaseCounts>) -> Seq<Option<Counts>> {
    scores.map_values(|c: &'a CaseCounts| c.lifecycle_correctness)
}

proof fn lemma_metric_step<'a>(scores: Seq<&'a CaseCounts>, i: int, f: spec_fn(CaseCounts) -> Counts)
    requires
        0 <= i < scores.len(),
    ensures
        pooled(metric_of(scores.take(i + 1), f)) == add_counts(pooled(metric_of(scores.take(i), f)), f(*scores[i])),
{
    assert(metric_of(scores.take(i + 1), f).drop_last() =~= metric_of(scores.take(i), f));
}

/// Pools the counts of the scored cases of a scope, metric by metric; the
/// lifecycle counts pool over the cases that have one. The pooled result
/// carries no diagnostics.
#[verifier::rlimit(30)]
pub fn micro_counts(scores: &[&CaseCounts]) -> (r: CaseCounts)
    ensures
        r.contract_precision == pooled(metric_of(scores@, precision_of())),
        r.contract_recall == pooled(metric_of(scores@, recall_of())),
        r.false_contract_rate == pooled(metric_of(scores@, false_rate_of())),
        r.authority_correctness == pooled(metric_of(scores@, authority_of())),
        r.relationship_precision == pooled(metric_of(scores@, relation_precision_of())),
        r.relationship_recall == pooled(metric_of(scores@, relation_recall_of())),
        r.lifecycle_correctness == pooled_present(lifecycles_of(scores@)),
        r.finding_precision == pooled(metric_of(scores@, finding_precision_of())),
        r.finding_recall == pooled(metric_of(scores@, finding_recall_of())),
        r.diagnostics@.len() == 0,
{
    let zero = Counts { numerator: 0, denominator: 0 };
    let mut cp = zero;
    let mut cr = zero;
    let mut fr = zero;
    let mut au = zero;
    let mut rp = zero;
    let mut rr = zero;
    let mut fp = zero;
    let mut fc = zero;
    let mut lc: Option<Counts> = None;
    let mut i: usize = 0;
    assert(metric_of(scores@.take(0), precision_of()) =~= Seq::<Counts>::empty());
    assert(metric_of(scores@.take(0), recall_of()) =~= Seq::<Counts>::empty());
    assert(metric_of(scores@.take(0), false_rate_of()) =~= Seq::<Counts>::empty());
    assert(metric_of(scores@.take(0), authority_of()) =~= Seq::<Counts>::empty());
    assert(metric_of(scores@.take(0), relation_precision_of()) =~= Seq::<Counts>::empty());
    assert(metric_of(scores@.take(0), relation_recall_of()) =~= Seq::<Counts>::empty());
    assert(metric_of(scores@.take(0), finding_precision_of()) =~= Seq::<Counts>::empty());
    assert(metric_of(scores@.take(0), finding_recall_of()) =~= Seq::<Counts>::empty());
    assert(lifecycles_of(scores@.take(0)) =~= Seq::<Option<Counts>>::empty());
    while i < scores.len()
        invariant
            i <= scores@.len(),
            zero == (Counts { numerator: 0, denominator: 0 }),
            cp == pooled(metric_of(scores@.take(i as int), precision_of())),
            cr == pooled(metric_of(scores@.take(i as int), recall_of())),
            fr == pooled(metric_of(scores@.take(i as int), false_rate_of())),
            au == pooled(metric_of(scores@.take(i as int), authority_of())),
            rp == pooled(metric_of(scores@.take(i as int), relation_precision_of())),
            rr == pooled(metric_of(scores@.take(i as int), relation_recall_of())),
            fp == pooled(metric_of(scores@.take(i as int), finding_precision_of())),
            fc == pooled(metric_of(scores@.take(i as int), finding_recall_of())),
            lc == pooled_present(lifecycles_of(scores@.take(i as int))),
        decreases scores.len() - i,
    {
        let c: &CaseCounts = scores[i];
        proof {
            lemma_metric_step(scores@, i as int, precision_of());
            lemma_metric_step(scores@, i as int, recall_of());
            lemma_metric_step(scores@, i as int, false_rate_of());
            lemma_metric_step(scores@, i as int, authority_of());
            lemma_metric_step(scores@, i as int, relation_precision_of());
            lemma_metric_step(scores@, i as int, relation_recall_of());
            lemma_metric_step(scores@, i as int, finding_precision_of());
            lemma_metric_step(scores@, i as int, finding_recall_of());
        }
        let ghost old_s = lifecycles_of(scores@.take(i as int));
        let ghost new_s = lifecycles_of(scores@.take(i as int + 1));
        assert(new_s =~= old_s.push(c.lifecycle_correctness));
        assert(new_s.drop_last() =~= old_s);
        cp = add_exec(cp, c.contract_precision);
        cr = add_exec(cr, c.contract_recall);
        fr = add_exec(fr, c.false_contract_rate);
        au = add_exec(au, c.authority_correctness);
        rp = add_exec(rp, c.relationship_precision);
        rr = add_exec(rr, c.relationship_recall);
        fp = add_exec(fp, c.finding_precision);
        fc = add_exec(fc, c.finding_recall);
        lc = match c.lifecycle_correctness {
            None => lc,
            Some(x) => match lc {
                None => Some(add_exec(zero, x)),
                Some(q) => Some(add_exec(q, x)),
            },
        };
        i = i + 1;
    }
    assert(scores@.take(scores@.len() as int) =~= scores@);
    CaseCounts {
        contract_precision: cp,
        contract_recall: cr,
        false_contract_rate: fr,
        authority_correctness: au,
        relationship_precision: rp,
        relationship_recall: rr,
        lifecycle_correctness: lc,
        finding_precision: fp,
        finding_recall: fc,
        diagnostics: Vec::new(),
    }
}

/// The counts of those cases among `members` that were scored, in order.
pub open spec fn scored_members<'a>(runs: Seq<CaseRun>, members: Seq<usize>) -> Seq<CaseCounts>
    decreases members.len(),
{
    if members.len() == 0 {
        Seq::empty()
    } else {
        let s = scored_members(runs, members.drop_last());
        match runs[members.last() as int].counts {
            Some(c) => s.push(c),
            None => s,
        }
    }
}

/// The counts of the scored cases among the given members of a scope.
pub fn scope_scores<'a>(runs: &'a [CaseRun], members: &[usize]) -> (r: Vec<&'a CaseCounts>)
    requires
        forall|k: int| 0 <= k < members@.len() ==> #[trigger] members@[k] < runs@.len(),
    ensures
        r@.map_values(|c: &'a CaseCounts| *c) == scored_members(runs@, members@),
{
    let mut r: Vec<&'a CaseCounts> = Vec::new();
    let mut k: usize = 0;
    while k < members.len()
        invariant
            k <= members@.len(),
            forall|q: int| 0 <= q < members@.len() ==> #[trigger] members@[q] < runs@.len(),
            r@.map_values(|c: &'a CaseCounts| *c) == scored_members(runs@, members@.take(k as int)),
        decreases members.len() - k,
    {
        assert(members@.take(k as int + 1).drop_last() =~= members@.take(k as int));
        let m = members[k];
        match &runs[m].counts {
            Some(c) => {
                r.push(c);
                assert(r@.map_values(|c: &'a CaseCounts| *c) =~= scored_members(runs@, members@.take(k as int)).push(*c));
            },
            None => {},
        }
        k = k + 1;
    }
    assert(members@.take(members@.len() as int) =~= members@);
    r
}

} // verus!
