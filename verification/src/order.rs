//! Sort keys and stable, verified sorting.
//!
//! Every ordering that the analysis and the benchmark use (ids, paths, tuples of
//! strings and ranks) is expressed as a key: a sequence of `u32` in which text is
//! written as code points plus one and every field ends with a `0` separator.
//! Comparing such keys lexicographically compares the tuples field by field.

use vstd::prelude::*;
use vstd::multiset::*;

verus! {

broadcast use {vstd::seq_lib::group_to_multiset_ensures, vstd::utf8::char_is_scalar, vstd::utf8::char_u32_cast};

/// Strict lexicographic order on keys.
pub open spec fn key_lt(a: Seq<u32>, b: Seq<u32>) -> bool
    decreases a.len(),
{
    if a.len() == 0 {
        b.len() > 0
    } else if b.len() == 0 {
        false
    } else if a[0] < b[0] {
        true
    } else if a[0] > b[0] {
        false
    } else {
        key_lt(a.drop_first(), b.drop_first())
    }
}

pub proof fn lemma_key_lt_irreflexive(a: Seq<u32>)
    ensures
        !key_lt(a, a),
    decreases a.len(),
{
    if a.len() > 0 {
        lemma_key_lt_irreflexive(a.drop_first());
    }
}

pub proof fn lemma_key_lt_transitive(a: Seq<u32>, b: Seq<u32>, c: Seq<u32>)
    requires
        key_lt(a, b),
        key_lt(b, c),
    ensures
        key_lt(a, c),
    decreases a.len(),
{
    if a.len() > 0 && b.len() > 0 && c.len() > 0 && a[0] == b[0] && b[0] == c[0] {
        lemma_key_lt_transitive(a.drop_first(), b.drop_first(), c.drop_first());
    }
}

pub proof fn lemma_key_lt_total(a: Seq<u32>, b: Seq<u32>)
    ensures
        a == b || key_lt(a, b) || key_lt(b, a),
    decreases a.len(),
{
    if a.len() > 0 && b.len() > 0 && a[0] == b[0] {
        lemma_key_lt_total(a.drop_first(), b.drop_first());
        if a.drop_first() == b.drop_first() {
            assert(a =~= seq![a[0]] + a.drop_first());
            assert(b =~= seq![b[0]] + b.drop_first());
        }
    } else if a.len() == 0 && b.len() == 0 {
        assert(a =~= b);
    }
}

pub proof fn lemma_key_lt_asymmetric(a: Seq<u32>, b: Seq<u32>)
    requires
        key_lt(a, b),
    ensures
        !key_lt(b, a),
{
    if key_lt(b, a) {
        lemma_key_lt_transitive(a, b, a);
        lemma_key_lt_irreflexive(a);
    }
}

/// "Not greater" is transitive.
pub proof fn lemma_key_le_transitive(a: Seq<u32>, b: Seq<u32>, c: Seq<u32>)
    requires
        !key_lt(b, a),
        !key_lt(c, b),
    ensures
        !key_lt(c, a),
{
    lemma_key_lt_total(a, b);
    lemma_key_lt_total(b, c);
    if key_lt(c, a) {
        if key_lt(a, b) {
            lemma_key_lt_transitive(c, a, b);
        }
    }
}

proof fn lemma_key_lt_skip(a: Seq<u32>, b: Seq<u32>, i: int)
    requires
        0 <= i <= a.len(),
        i <= b.len(),
        a.take(i) == b.take(i),
    ensures
        key_lt(a, b) == key_lt(a.skip(i), b.skip(i)),
    decreases i,
{
    if i > 0 {
        assert(a[0] == a.take(i)[0]);
        assert(b[0] == b.take(i)[0]);
        assert(a.drop_first().take(i - 1) =~= a.take(i).drop_first());
        assert(b.drop_first().take(i - 1) =~= b.take(i).drop_first());
        lemma_key_lt_skip(a.drop_first(), b.drop_first(), i - 1);
        assert(a.drop_first().skip(i - 1) =~= a.skip(i));
        assert(b.drop_first().skip(i - 1) =~= b.skip(i));
    } else {
        assert(a.skip(0) =~= a);
        assert(b.skip(0) =~= b);
    }
}

/// Three-way comparison of two keys: negative, zero or positive.
pub fn key_compare(a: &Vec<u32>, b: &Vec<u32>) -> (r: i8)
    ensures
        r < 0 <==> key_lt(a@, b@),
        r == 0 <==> a@ == b@,
        r > 0 <==> key_lt(b@, a@),
{
    let mut i: usize = 0;
    while i < a.len() && i < b.len()
        invariant
            i <= a.len(),
            i <= b.len(),
            a@.take(i as int) == b@.take(i as int),
        decreases a.len() - i,
    {
        if a[i] != b[i] {
            proof {
                lemma_key_lt_skip(a@, b@, i as int);
                lemma_key_lt_skip(b@, a@, i as int);
            }
            if a[i] < b[i] {
                return -1;
            } else {
                return 1;
            }
        }
        assert(a@.take(i + 1) =~= a@.take(i as int).push(a@[i as int]));
        assert(b@.take(i + 1) =~= b@.take(i as int).push(b@[i as int]));
        i = i + 1;
    }
    proof {
        lemma_key_lt_skip(a@, b@, i as int);
        lemma_key_lt_skip(b@, a@, i as int);
    }
    if a.len() == b.len() {
        assert(a@ =~= a@.take(i as int));
        assert(b@ =~= b@.take(i as int));
        proof {
            lemma_key_lt_irreflexive(a@);
        }
        0
    } else if i == a.len() {
        -1
    } else {
        1
    }
}

/// A value with a sort key.
pub trait SortKey {
    spec fn sort_key(&self) -> Seq<u32>;

    fn sort_key_exec(&self) -> (k: Vec<u32>)
        ensures
            k@ == self.sort_key(),
    ;
}

/// No element's key is smaller than an earlier element's key.
pub open spec fn sorted_by_key<T: SortKey>(s: Seq<T>) -> bool {
    forall|i: int, j: int| 0 <= i < j < s.len() ==> !key_lt(#[trigger] s[j].sort_key(), #[trigger] s[i].sort_key())
}

/// Every element's key is smaller than every later element's key.
pub open spec fn strictly_sorted_by_key<T: SortKey>(s: Seq<T>) -> bool {
    forall|i: int, j: int| 0 <= i < j < s.len() ==> key_lt(#[trigger] s[i].sort_key(), #[trigger] s[j].sort_key())
}

pub proof fn lemma_insert_multiset<T>(s: Seq<T>, j: int, x: T)
    requires
        0 <= j <= s.len(),
    ensures
        s.insert(j, x).to_multiset() =~= s.to_multiset().insert(x),
{
    let t = s.insert(j, x);
    assert(t.remove(j) =~= s);
    assert(t[j] == x);
    assert(t.remove(j).to_multiset() =~= t.to_multiset().remove(t[j]));
    assert(t.contains(x));
    assert(t.to_multiset().count(x) > 0);
    broadcast use group_multiset_axioms;
    assert(t.to_multiset() =~= t.to_multiset().remove(x).insert(x));
}

proof fn lemma_take_multiset<T>(s: Seq<T>, k: int)
    requires
        0 <= k < s.len(),
    ensures
        s.take(k + 1).to_multiset() =~= s.take(k).to_multiset().insert(s[k]),
{
    assert(s.take(k + 1) =~= s.take(k).push(s[k]));
}

/// The key function of a `SortKey` type.
pub open spec fn key_of<T: SortKey>() -> spec_fn(T) -> Seq<u32> {
    |x: T| x.sort_key()
}

/// Where a stable insertion puts an element with key `k`, looking from index `j`:
/// after every element whose key is not greater than `k`.
pub open spec fn insert_pos<T>(s: Seq<T>, key: spec_fn(T) -> Seq<u32>, k: Seq<u32>, j: int) -> int
    decreases s.len() - j,
{
    if j < 0 || j >= s.len() || key_lt(k, key(s[j])) {
        j
    } else {
        insert_pos(s, key, k, j + 1)
    }
}

/// Stable sort by a key, as insertion sort: each element in turn goes after every
/// element already placed whose key is not greater.
pub open spec fn stable_sort_by<T>(s: Seq<T>, key: spec_fn(T) -> Seq<u32>) -> Seq<T>
    decreases s.len(),
{
    if s.len() == 0 {
        s
    } else {
        let o = stable_sort_by(s.drop_last(), key);
        o.insert(insert_pos(o, key, key(s.last()), 0), s.last())
    }
}

/// Every element's key is smaller than every later element's key.
pub open spec fn ascending_by<T>(s: Seq<T>, key: spec_fn(T) -> Seq<u32>) -> bool {
    forall|i: int, j: int| 0 <= i < j < s.len() ==> key_lt(key(#[trigger] s[i]), key(#[trigger] s[j]))
}

/// The ascending sequence that holds exactly the members of `st`.
pub open spec fn ascending_of<T>(st: Set<T>, key: spec_fn(T) -> Seq<u32>) -> Seq<T> {
    choose|s: Seq<T>| ascending_by(s, key) && s.to_set() == st
}

/// Drops every element that equals the element kept just before it.
pub open spec fn dedup_seq<T>(s: Seq<T>) -> Seq<T>
    decreases s.len(),
{
    if s.len() == 0 {
        s
    } else {
        let d = dedup_seq(s.drop_last());
        if d.len() > 0 && d.last() == s.last() {
            d
        } else {
            d.push(s.last())
        }
    }
}

proof fn lemma_ascending_not_in_tail<T>(a: Seq<T>, key: spec_fn(T) -> Seq<u32>)
    requires
        ascending_by(a, key),
        a.len() > 0,
    ensures
        a.drop_first().to_set() == a.to_set().remove(a[0]),
{
    assert forall|x: T| a.drop_first().to_set().contains(x) <==> a.to_set().remove(a[0]).contains(x) by {
        if a.drop_first().to_set().contains(x) {
            let k = choose|k: int| 0 <= k < a.drop_first().len() && a.drop_first()[k] == x;
            assert(a[k + 1] == x);
            if x == a[0] {
                assert(key_lt(key(a[0]), key(a[k + 1])));
                lemma_key_lt_irreflexive(key(a[0]));
            }
        }
        if a.to_set().remove(a[0]).contains(x) {
            let k = choose|k: int| 0 <= k < a.len() && a[k] == x;
            assert(k != 0);
            assert(a.drop_first()[k - 1] == x);
        }
    }
    assert(a.drop_first().to_set() =~= a.to_set().remove(a[0]));
}

/// Two ascending sequences with the same members are equal.
pub proof fn lemma_ascending_unique<T>(a: Seq<T>, b: Seq<T>, key: spec_fn(T) -> Seq<u32>)
    requires
        ascending_by(a, key),
        ascending_by(b, key),
        a.to_set() == b.to_set(),
    ensures
        a == b,
    decreases a.len(),
{
    if a.len() == 0 {
        if b.len() > 0 {
            assert(b.to_set().contains(b[0]));
        }
        assert(a =~= b);
    } else if b.len() == 0 {
        assert(a.to_set().contains(a[0]));
    } else {
        assert(a.to_set().contains(a[0]));
        assert(b.to_set().contains(b[0]));
        let j = choose|j: int| 0 <= j < b.len() && b[j] == a[0];
        let i = choose|i: int| 0 <= i < a.len() && a[i] == b[0];
        if j > 0 {
            assert(key_lt(key(b[0]), key(b[j])));
            if i > 0 {
                assert(key_lt(key(a[0]), key(a[i])));
                lemma_key_lt_asymmetric(key(a[0]), key(a[i]));
            } else {
                lemma_key_lt_irreflexive(key(b[0]));
            }
        }
        assert(a[0] == b[0]);
        lemma_ascending_not_in_tail(a, key);
        lemma_ascending_not_in_tail(b, key);
        assert(ascending_by(a.drop_first(), key)) by {
            assert forall|x: int, y: int| 0 <= x < y < a.drop_first().len() implies key_lt(
                key(#[trigger] a.drop_first()[x]),
                key(#[trigger] a.drop_first()[y]),
            ) by {
                assert(a.drop_first()[x] == a[x + 1]);
                assert(a.drop_first()[y] == a[y + 1]);
            }
        }
        assert(ascending_by(b.drop_first(), key)) by {
            assert forall|x: int, y: int| 0 <= x < y < b.drop_first().len() implies key_lt(
                key(#[trigger] b.drop_first()[x]),
                key(#[trigger] b.drop_first()[y]),
            ) by {
                assert(b.drop_first()[x] == b[x + 1]);
                assert(b.drop_first()[y] == b[y + 1]);
            }
        }
        lemma_ascending_unique(a.drop_first(), b.drop_first(), key);
        assert(a =~= seq![a[0]] + a.drop_first());
        assert(b =~= seq![b[0]] + b.drop_first());
    }
}

proof fn lemma_insert_pos_map<T, U>(
    s: Seq<T>,
    kt: spec_fn(T) -> Seq<u32>,
    f: spec_fn(T) -> U,
    ku: spec_fn(U) -> Seq<u32>,
    k: Seq<u32>,
    j: int,
)
    requires
        forall|x: T| #[trigger] kt(x) == ku(f(x)),
    ensures
        insert_pos(s.map_values(f), ku, k, j) == insert_pos(s, kt, k, j),
    decreases s.len() - j,
{
    if 0 <= j < s.len() {
        assert(s.map_values(f)[j] == f(s[j]));
        assert(kt(s[j]) == ku(f(s[j])));
        lemma_insert_pos_map(s, kt, f, ku, k, j + 1);
    }
}

proof fn lemma_insert_pos_range<T>(s: Seq<T>, key: spec_fn(T) -> Seq<u32>, k: Seq<u32>, j: int)
    requires
        0 <= j <= s.len(),
    ensures
        j <= insert_pos(s, key, k, j) <= s.len(),
    decreases s.len() - j,
{
    if j < s.len() && !key_lt(k, key(s[j])) {
        lemma_insert_pos_range(s, key, k, j + 1);
    }
}

/// A stably sorted sequence holds only elements of its input.
pub proof fn lemma_stable_sort_contains<T>(s: Seq<T>, key: spec_fn(T) -> Seq<u32>)
    ensures
        stable_sort_by(s, key).len() == s.len(),
        forall|j: int| 0 <= j < s.len() ==> s.contains(#[trigger] stable_sort_by(s, key)[j]),
    decreases s.len(),
{
    if s.len() > 0 {
        let o = stable_sort_by(s.drop_last(), key);
        lemma_stable_sort_contains(s.drop_last(), key);
        let p = insert_pos(o, key, key(s.last()), 0);
        lemma_insert_pos_range(o, key, key(s.last()), 0);
        let r = o.insert(p, s.last());
        assert forall|j: int| 0 <= j < s.len() implies s.contains(#[trigger] stable_sort_by(s, key)[j]) by {
            if j < p {
                assert(r[j] == o[j]);
                assert(s.drop_last().contains(o[j]));
                let t = choose|t: int| 0 <= t < s.drop_last().len() && s.drop_last()[t] == o[j];
                assert(s[t] == o[j]);
            } else if j == p {
                assert(r[j] == s.last());
                assert(s[s.len() - 1] == s.last());
            } else {
                assert(r[j] == o[j - 1]);
                assert(s.drop_last().contains(o[j - 1]));
                let t = choose|t: int| 0 <= t < s.drop_last().len() && s.drop_last()[t] == o[j - 1];
                assert(s[t] == o[j - 1]);
            }
        }
    }
}

proof fn lemma_insert_pos_map_on<T, U>(
    s: Seq<T>,
    kt: spec_fn(T) -> Seq<u32>,
    f: spec_fn(T) -> U,
    ku: spec_fn(U) -> Seq<u32>,
    k: Seq<u32>,
    j: int,
)
    requires
        forall|i: int| 0 <= i < s.len() ==> kt(#[trigger] s[i]) == ku(f(s[i])),
    ensures
        insert_pos(s.map_values(f), ku, k, j) == insert_pos(s, kt, k, j),
    decreases s.len() - j,
{
    if 0 <= j < s.len() {
        assert(s.map_values(f)[j] == f(s[j]));
        assert(kt(s[j]) == ku(f(s[j])));
        lemma_insert_pos_map_on(s, kt, f, ku, k, j + 1);
    }
}

/// No element's key is smaller than an earlier element's key.
pub open spec fn ordered_by<T>(s: Seq<T>, key: spec_fn(T) -> Seq<u32>) -> bool {
    forall|i: int, j: int| 0 <= i < j < s.len() ==> !key_lt(key(#[trigger] s[j]), key(#[trigger] s[i]))
}

proof fn lemma_insert_pos_bounds<T>(s: Seq<T>, key: spec_fn(T) -> Seq<u32>, k: Seq<u32>, j: int)
    requires
        0 <= j <= s.len(),
    ensures
        forall|m: int| j <= m < insert_pos(s, key, k, j) ==> !key_lt(k, key(#[trigger] s[m])),
        insert_pos(s, key, k, j) < s.len() ==> key_lt(k, key(s[insert_pos(s, key, k, j)])),
    decreases s.len() - j,
{
    if j < s.len() && !key_lt(k, key(s[j])) {
        lemma_insert_pos_bounds(s, key, k, j + 1);
    }
}

/// A stable sort orders its output by key.
pub proof fn lemma_stable_sort_ordered<T>(s: Seq<T>, key: spec_fn(T) -> Seq<u32>)
    ensures
        ordered_by(stable_sort_by(s, key), key),
    decreases s.len(),
{
    if s.len() > 0 {
        let o = stable_sort_by(s.drop_last(), key);
        lemma_stable_sort_ordered(s.drop_last(), key);
        let x = s.last();
        let kx = key(x);
        let p = insert_pos(o, key, kx, 0);
        lemma_insert_pos_range(o, key, kx, 0);
        lemma_insert_pos_bounds(o, key, kx, 0);
        let t = o.insert(p, x);
        assert forall|a: int, b: int| 0 <= a < b < t.len() implies !key_lt(key(#[trigger] t[b]), key(#[trigger] t[a])) by {
            if b < p {
                assert(t[a] == o[a] && t[b] == o[b]);
            } else if b == p {
                assert(t[a] == o[a] && t[b] == x);
            } else if a < p {
                assert(t[a] == o[a] && t[b] == o[b - 1]);
                lemma_key_lt_total(key(o[a]), kx);
                lemma_key_lt_total(kx, key(o[p]));
                if p < b - 1 {
                    lemma_key_le_transitive(key(o[a]), key(o[p]), key(o[b - 1]));
                }
                lemma_key_lt_asymmetric(kx, key(o[p]));
                lemma_key_le_transitive(key(o[a]), kx, key(o[p]));
                if p < b - 1 {
                    lemma_key_le_transitive(key(o[a]), key(o[p]), key(o[b - 1]));
                }
            } else if a == p {
                assert(t[a] == x && t[b] == o[b - 1]);
                lemma_key_lt_asymmetric(kx, key(o[p]));
                if p < b - 1 {
                    lemma_key_le_transitive(kx, key(o[p]), key(o[b - 1]));
                }
            } else {
                assert(t[a] == o[a - 1] && t[b] == o[b - 1]);
            }
        }
    }
}

/// A stable sort holds the elements of its input, each as often.
pub proof fn lemma_stable_sort_permutes<T>(s: Seq<T>, key: spec_fn(T) -> Seq<u32>)
    ensures
        stable_sort_by(s, key).to_multiset() == s.to_multiset(),
    decreases s.len(),
{
    if s.len() > 0 {
        let o = stable_sort_by(s.drop_last(), key);
        lemma_stable_sort_permutes(s.drop_last(), key);
        let p = insert_pos(o, key, key(s.last()), 0);
        lemma_insert_pos_range(o, key, key(s.last()), 0);
        lemma_insert_multiset(o, p, s.last());
        assert(s =~= s.drop_last().push(s.last()));
        lemma_insert_multiset(s.drop_last(), s.drop_last().len() as int, s.last());
        assert(s.drop_last().insert(s.drop_last().len() as int, s.last()) =~= s);
    }
}

/// Mapping commutes with stable sorting when the keys agree on the elements.
pub proof fn lemma_stable_sort_map_on<T, U>(
    s: Seq<T>,
    kt: spec_fn(T) -> Seq<u32>,
    f: spec_fn(T) -> U,
    ku: spec_fn(U) -> Seq<u32>,
)
    requires
        forall|i: int| 0 <= i < s.len() ==> kt(#[trigger] s[i]) == ku(f(s[i])),
    ensures
        stable_sort_by(s, kt).map_values(f) == stable_sort_by(s.map_values(f), ku),
        stable_sort_by(s, kt).len() == s.len(),
    decreases s.len(),
{
    if s.len() > 0 {
        let d = s.drop_last();
        let o = stable_sort_by(d, kt);
        assert forall|i: int| 0 <= i < d.len() implies kt(#[trigger] d[i]) == ku(f(d[i])) by {
            assert(d[i] == s[i]);
        }
        lemma_stable_sort_map_on(d, kt, f, ku);
        lemma_stable_sort_contains(d, kt);
        assert forall|i: int| 0 <= i < o.len() implies kt(#[trigger] o[i]) == ku(f(o[i])) by {
            assert(d.contains(o[i]));
            let t = choose|t: int| 0 <= t < d.len() && d[t] == o[i];
        }
        assert(s.map_values(f).drop_last() =~= d.map_values(f));
        assert(s.map_values(f).last() == f(s.last()));
        assert(kt(s[s.len() - 1]) == ku(f(s[s.len() - 1])));
        lemma_insert_pos_map_on(o, kt, f, ku, kt(s.last()), 0);
        let p = insert_pos(o, kt, kt(s.last()), 0);
        lemma_insert_pos_range(o, kt, kt(s.last()), 0);
        assert(o.insert(p, s.last()).map_values(f) =~= o.map_values(f).insert(p, f(s.last())));
    }
}

/// Mapping commutes with stable sorting when the keys agree.
pub proof fn lemma_stable_sort_map<T, U>(
    s: Seq<T>,
    kt: spec_fn(T) -> Seq<u32>,
    f: spec_fn(T) -> U,
    ku: spec_fn(U) -> Seq<u32>,
)
    requires
        forall|x: T| #[trigger] kt(x) == ku(f(x)),
    ensures
        stable_sort_by(s, kt).map_values(f) == stable_sort_by(s.map_values(f), ku),
        stable_sort_by(s, kt).len() == s.len(),
    decreases s.len(),
{
    if s.len() > 0 {
        let o = stable_sort_by(s.drop_last(), kt);
        lemma_stable_sort_map(s.drop_last(), kt, f, ku);
        assert(s.map_values(f).drop_last() =~= s.drop_last().map_values(f));
        assert(s.map_values(f).last() == f(s.last()));
        assert(kt(s.last()) == ku(f(s.last())));
        lemma_insert_pos_map(o, kt, f, ku, kt(s.last()), 0);
        let p = insert_pos(o, kt, kt(s.last()), 0);
        lemma_insert_pos_range(o, kt, kt(s.last()), 0);
        assert(o.insert(p, s.last()).map_values(f) =~= o.map_values(f).insert(p, f(s.last())));
    }
}

/// Stable sort by key: the result holds the same elements and is ordered by key;
/// elements with equal keys keep their input order.
pub fn sort_by_key<T: SortKey>(v: Vec<T>) -> (r: Vec<T>)
    ensures
        r@ == stable_sort_by(v@, key_of::<T>()),
        r@.to_multiset() == v@.to_multiset(),
        r@.len() == v@.len(),
        sorted_by_key(r@),
{
    let ghost given = v@;
    let mut input = v;
    let mut out: Vec<T> = Vec::new();
    let ghost mut done: int = 0;
    while input.len() > 0
        invariant
            0 <= done <= given.len(),
            input@ == given.skip(done),
            out@.to_multiset() == given.take(done).to_multiset(),
            sorted_by_key(out@),
            out@ == stable_sort_by(given.take(done), key_of::<T>()),
        decreases input.len(),
    {
        let x = input.remove(0);
        proof {
            assert(x == given[done]);
            lemma_take_multiset(given, done);
            assert(input@ =~= given.skip(done + 1));
            assert(given.take(done + 1).drop_last() =~= given.take(done));
            assert(given.take(done + 1).last() == x);
        }
        let kx = x.sort_key_exec();
        let mut j: usize = 0;
        while j < out.len() && key_compare(&kx, &out[j].sort_key_exec()) >= 0
            invariant
                j <= out.len(),
                kx@ == x.sort_key(),
                forall|m: int| 0 <= m < j ==> !key_lt(kx@, #[trigger] out@[m].sort_key()),
                insert_pos(out@, key_of::<T>(), kx@, j as int) == insert_pos(out@, key_of::<T>(), kx@, 0),
            decreases out.len() - j,
        {
            j = j + 1;
        }
        assert(insert_pos(out@, key_of::<T>(), kx@, j as int) == j);
        let ghost before = out@;
        proof {
            lemma_insert_multiset(before, j as int, x);
            before.insert_ensures(j as int, x);
        }
        out.insert(j, x);
        proof {
            assert forall|a: int, b: int| 0 <= a < b < out@.len() implies !key_lt(
                #[trigger] out@[b].sort_key(),
                #[trigger] out@[a].sort_key(),
            ) by {
                if b < j {
                } else if b == j {
                } else if a < j {
                    // before[a] <= x < before[j] <= before[b-1]
                    lemma_key_lt_total(before[a].sort_key(), kx@);
                    if j < before.len() {
                        lemma_key_lt_total(kx@, before[j as int].sort_key());
                        lemma_key_le_transitive(before[a].sort_key(), kx@, before[j as int].sort_key());
                        if b - 1 > j {
                            lemma_key_le_transitive(before[a].sort_key(), before[j as int].sort_key(), before[b - 1].sort_key());
                        }
                    }
                } else if a == j {
                    if b - 1 > j {
                        lemma_key_le_transitive(kx@, before[j as int].sort_key(), before[b - 1].sort_key());
                    }
                } else {
                }
            }
            done = done + 1;
        }
    }
    assert(done == given.len());
    assert(given.take(done) =~= given);
    assert(out@.to_multiset().len() == out@.len());
    assert(given.to_multiset().len() == given.len());
    out
}

/// Some element of `s` has the key of `x`.
pub open spec fn holds_key_of<T: SortKey>(s: Seq<T>, x: T) -> bool {
    exists|k: int| 0 <= k < s.len() && #[trigger] s[k].sort_key() == x.sort_key()
}

/// Sorts by key and keeps only the first element of each run of equal keys.
pub fn sort_unique_by_key<T: SortKey>(v: Vec<T>) -> (r: Vec<T>)
    ensures
        strictly_sorted_by_key(r@),
        forall|i: int| 0 <= i < r@.len() ==> v@.contains(#[trigger] r@[i]),
        forall|i: int| 0 <= i < v@.len() ==> holds_key_of(r@, #[trigger] v@[i]),
{
    let ghost given = v@;
    let mut input = v;
    let mut out: Vec<T> = Vec::new();
    let ghost mut done: int = 0;
    while input.len() > 0
        invariant
            0 <= done <= given.len(),
            input@ == given.skip(done),
            strictly_sorted_by_key(out@),
            forall|i: int| 0 <= i < out@.len() ==> given.contains(#[trigger] out@[i]),
            forall|i: int| 0 <= i < done ==> holds_key_of(out@, #[trigger] given[i]),
        decreases input.len(),
    {
        let x = input.remove(0);
        proof {
            assert(x == given[done]);
            assert(input@ =~= given.skip(done + 1));
        }
        let kx = x.sort_key_exec();
        let mut j: usize = 0;
        while j < out.len() && key_compare(&out[j].sort_key_exec(), &kx) < 0
            invariant
                j <= out.len(),
                kx@ == x.sort_key(),
                forall|m: int| 0 <= m < j ==> key_lt(#[trigger] out@[m].sort_key(), kx@),
            decreases out.len() - j,
        {
            j = j + 1;
        }
        let mut c: i8 = 1;
        if j < out.len() {
            c = key_compare(&out[j].sort_key_exec(), &kx);
        }
        let ghost before = out@;
        if j < out.len() && c == 0 {
            proof {
                assert(before[j as int].sort_key() == given[done].sort_key());
                assert forall|i: int| 0 <= i < done + 1 implies holds_key_of(out@, #[trigger] given[i]) by {
                    if i == done {
                        assert(out@[j as int].sort_key() == given[i].sort_key());
                    }
                }
            }
        } else {
            proof {
                before.insert_ensures(j as int, x);
                if j < before.len() {
                    lemma_key_lt_total(before[j as int].sort_key(), kx@);
                }
            }
            out.insert(j, x);
            proof {
                assert forall|a: int, b: int| 0 <= a < b < out@.len() implies key_lt(
                    #[trigger] out@[a].sort_key(),
                    #[trigger] out@[b].sort_key(),
                ) by {
                    if b < j {
                    } else if b == j {
                    } else if a < j {
                        if b - 1 > j {
                            lemma_key_lt_transitive(before[a].sort_key(), kx@, before[j as int].sort_key());
                            lemma_key_lt_transitive(before[a].sort_key(), before[j as int].sort_key(), before[b - 1].sort_key());
                        } else {
                            lemma_key_lt_transitive(before[a].sort_key(), kx@, before[j as int].sort_key());
                        }
                    } else if a == j {
                        if b - 1 > j {
                            lemma_key_lt_transitive(kx@, before[j as int].sort_key(), before[b - 1].sort_key());
                        }
                    } else {
                    }
                }
                assert forall|i: int| 0 <= i < out@.len() implies given.contains(#[trigger] out@[i]) by {
                    if i < j {
                        assert(out@[i] == before[i]);
                    } else if i == j {
                        assert(given[done] == out@[i]);
                    } else {
                        assert(out@[i] == before[i - 1]);
                    }
                }
                assert forall|i: int| 0 <= i < done + 1 implies holds_key_of(out@, #[trigger] given[i]) by {
                    if i == done {
                        assert(out@[j as int].sort_key() == given[i].sort_key());
                    } else {
                        assert(holds_key_of(before, given[i]));
                        let k = choose|k: int| 0 <= k < before.len() && #[trigger] before[k].sort_key() == given[i].sort_key();
                        if k < j {
                            assert(out@[k].sort_key() == given[i].sort_key());
                        } else {
                            assert(out@[k + 1].sort_key() == given[i].sort_key());
                        }
                    }
                }
            }
        }
        proof {
            done = done + 1;
        }
    }
    assert(done == given.len());
    out
}

/// A character's code point is at most `0x10FFFF`.
pub proof fn lemma_char_bound(c: char)
    ensures
        (c as u32) <= 0x10FFFF,
{
    vstd::utf8::char_is_scalar(c);
}

/// Key of a number: its high and its low 32 bits, so that keys compare as the
/// numbers do.
pub open spec fn num_key(n: u64) -> Seq<u32> {
    seq![(n / 0x1_0000_0000) as u32, (n % 0x1_0000_0000) as u32]
}

pub fn push_num_key(k: &mut Vec<u32>, n: u64)
    ensures
        final(k)@ == old(k)@ + num_key(n),
{
    let hi = (n >> 32u64) as u32;
    let lo = (n & 0xffff_ffffu64) as u32;
    assert(hi == (n / 0x1_0000_0000) as u32 && lo == (n % 0x1_0000_0000) as u32) by (bit_vector)
        requires
            hi == (n >> 32u64) as u32,
            lo == (n & 0xffff_ffffu64) as u32,
    ;
    k.push(hi);
    k.push(lo);
    assert(final(k)@ =~= old(k)@ + num_key(n));
}

/// Key of one text field: each character's code point plus one, then `0`.
pub open spec fn text_key(s: Seq<char>) -> Seq<u32> {
    Seq::new(s.len(), |i: int| ((s[i] as u32) + 1) as u32).push(0)
}

/// Key of a small rank field.
pub open spec fn rank_key(r: u32) -> Seq<u32> {
    seq![(r + 1) as u32, 0]
}

pub fn push_text_key(k: &mut Vec<u32>, s: &str)
    ensures
        final(k)@ == old(k)@ + text_key(s@),
{
    let ghost start = k@;
    let mut i: usize = 0;
    for c in it: s.chars()
        invariant
            it.seq() == s@,
            k@ == start + Seq::new(it.index() as nat, |j: int| ((s@[j] as u32) + 1) as u32),
    {
        proof {
            lemma_char_bound(c);
        }
        k.push((c as u32) + 1);
        assert(k@ =~= start + Seq::new((it.index() + 1) as nat, |j: int| ((s@[j] as u32) + 1) as u32));
    }
    k.push(0);
    assert(k@ =~= start + text_key(s@));
}

pub fn push_rank_key(k: &mut Vec<u32>, r: u32)
    requires
        r < 1000,
    ensures
        final(k)@ == old(k)@ + rank_key(r),
{
    k.push(r + 1);
    k.push(0);
    assert(final(k)@ =~= old(k)@ + rank_key(r));
}

/// Text keys can be read back: equal key prefixes come from equal texts.
pub proof fn lemma_text_key_injective(a: Seq<char>, x: Seq<u32>, b: Seq<char>, y: Seq<u32>)
    requires
        text_key(a) + x == text_key(b) + y,
    ensures
        a == b,
        x == y,
    decreases a.len(),
{
    let ka = text_key(a) + x;
    let kb = text_key(b) + y;
    if a.len() > 0 {
        lemma_char_bound(a[0]);
    }
    if b.len() > 0 {
        lemma_char_bound(b[0]);
    }
    if a.len() == 0 {
        assert(ka[0] == 0);
        if b.len() > 0 {
            assert(kb[0] == (b[0] as u32) + 1);
        }
        assert(a =~= b);
        assert(x =~= ka.skip(1));
        assert(y =~= kb.skip(1));
    } else {
        assert(ka[0] == (a[0] as u32) + 1);
        if b.len() == 0 {
            assert(kb[0] == 0);
        }
        assert(kb[0] == (b[0] as u32) + 1);
        assert(a[0] as u32 == b[0] as u32);
        vstd::utf8::char_u32_cast(a[0], a[0] as u32);
        vstd::utf8::char_u32_cast(b[0], b[0] as u32);
        assert(a[0] == b[0]);
        assert(text_key(a.drop_first()) + x =~= ka.drop_first());
        assert(text_key(b.drop_first()) + y =~= kb.drop_first());
        lemma_text_key_injective(a.drop_first(), x, b.drop_first(), y);
        assert(a =~= seq![a[0]] + a.drop_first());
        assert(b =~= seq![b[0]] + b.drop_first());
    }
}

impl SortKey for String {
    open spec fn sort_key(&self) -> Seq<u32> {
        text_key(self@)
    }

    fn sort_key_exec(&self) -> (k: Vec<u32>) {
        let mut k: Vec<u32> = Vec::new();
        push_text_key(&mut k, self.as_str());
        k
    }
}

/// Key of a list of text fields: each text after a `1` marker, then a final `0`,
/// so that a list compares before every longer list that extends it.
pub open spec fn texts_body(parts: Seq<Seq<char>>) -> Seq<u32>
    decreases parts.len(),
{
    if parts.len() == 0 {
        Seq::empty()
    } else {
        texts_body(parts.drop_last()) + seq![1u32] + text_key(parts.last())
    }
}

pub open spec fn texts_key(parts: Seq<Seq<char>>) -> Seq<u32> {
    texts_body(parts).push(0)
}

/// The order of lists of texts.
pub open spec fn texts_key_fn() -> spec_fn(Seq<Seq<char>>) -> Seq<u32> {
    |p: Seq<Seq<char>>| texts_key(p)
}

proof fn lemma_texts_body_front(parts: Seq<Seq<char>>)
    requires
        parts.len() > 0,
    ensures
        texts_body(parts) == seq![1u32] + text_key(parts[0]) + texts_body(parts.drop_first()),
    decreases parts.len(),
{
    if parts.len() == 1 {
        assert(parts.drop_last().len() == 0);
        assert(parts.drop_first().len() == 0);
        assert(texts_body(parts.drop_last()) =~= Seq::<u32>::empty());
        assert(texts_body(parts.drop_first()) =~= Seq::<u32>::empty());
        assert(parts.last() == parts[0]);
        assert(texts_body(parts) =~= seq![1u32] + text_key(parts[0]) + texts_body(parts.drop_first()));
    } else {
        let dl = parts.drop_last();
        lemma_texts_body_front(dl);
        assert(dl.drop_first() =~= parts.drop_first().drop_last());
        assert(parts.drop_first().last() == parts.last());
        assert(texts_body(parts) =~= seq![1u32] + text_key(parts[0]) + texts_body(parts.drop_first()));
    }
}

/// Keys of lists of texts can be read back, also from the front of a longer key.
pub proof fn lemma_texts_key_prefix_injective(a: Seq<Seq<char>>, x: Seq<u32>, b: Seq<Seq<char>>, y: Seq<u32>)
    requires
        texts_key(a) + x == texts_key(b) + y,
    ensures
        a == b,
        x == y,
    decreases a.len(),
{
    let ka = texts_key(a) + x;
    let kb = texts_key(b) + y;
    if a.len() == 0 {
        assert(texts_body(a) =~= Seq::<u32>::empty());
        assert(ka[0] == 0);
        if b.len() > 0 {
            lemma_texts_body_front(b);
            assert(kb[0] == 1);
        }
        assert(texts_body(b) =~= Seq::<u32>::empty());
        assert(a =~= b);
        assert(x =~= ka.skip(1));
        assert(y =~= kb.skip(1));
    } else {
        lemma_texts_body_front(a);
        assert(ka[0] == 1);
        if b.len() == 0 {
            assert(texts_body(b) =~= Seq::<u32>::empty());
            assert(kb[0] == 0);
        }
        lemma_texts_body_front(b);
        assert(ka.drop_first() =~= text_key(a[0]) + (texts_key(a.drop_first()) + x));
        assert(kb.drop_first() =~= text_key(b[0]) + (texts_key(b.drop_first()) + y));
        lemma_text_key_injective(a[0], texts_key(a.drop_first()) + x, b[0], texts_key(b.drop_first()) + y);
        lemma_texts_key_prefix_injective(a.drop_first(), x, b.drop_first(), y);
        assert(a =~= seq![a[0]] + a.drop_first());
        assert(b =~= seq![b[0]] + b.drop_first());
    }
}

/// Keys of lists of texts can be read back.
pub proof fn lemma_texts_key_injective(a: Seq<Seq<char>>, b: Seq<Seq<char>>)
    requires
        texts_key(a) == texts_key(b),
    ensures
        a == b,
{
    assert(texts_key(a) + Seq::<u32>::empty() =~= texts_key(a));
    assert(texts_key(b) + Seq::<u32>::empty() =~= texts_key(b));
    lemma_texts_key_prefix_injective(a, Seq::empty(), b, Seq::empty());
}

pub fn push_texts_key(k: &mut Vec<u32>, parts: &[String])
    ensures
        final(k)@ == old(k)@ + texts_key(parts@.map_values(|p: String| p@)),
{
    let ghost start = k@;
    let ghost all = parts@.map_values(|p: String| p@);
    let mut i: usize = 0;
    while i < parts.len()
        invariant
            i <= parts.len(),
            all == parts@.map_values(|p: String| p@),
            k@ == start + texts_body(all.take(i as int)),
        decreases parts.len() - i,
    {
        k.push(1);
        push_text_key(k, parts[i].as_str());
        assert(all.take(i + 1).drop_last() =~= all.take(i as int));
        assert(k@ =~= start + texts_body(all.take(i + 1)));
        i = i + 1;
    }
    assert(all.take(parts.len() as int) =~= all);
    k.push(0);
    assert(k@ =~= start + texts_key(all));
}

/// Every element of `a` occurs in `b` and the other way round.
pub open spec fn same_members<T>(a: Seq<T>, b: Seq<T>) -> bool {
    forall|x: T| a.contains(x) <==> b.contains(x)
}

pub proof fn lemma_same_members_set<T>(a: Seq<T>, b: Seq<T>)
    requires
        same_members(a, b),
    ensures
        a.to_set() == b.to_set(),
{
    assert(a.to_set() =~= b.to_set());
}

pub proof fn lemma_push_to_set<T>(s: Seq<T>, a: T)
    ensures
        s.push(a).to_set() == s.to_set().insert(a),
{
    assert forall|x: T| s.push(a).to_set().contains(x) <==> s.to_set().insert(a).contains(x) by {
        if s.push(a).contains(x) {
            let i = choose|i: int| 0 <= i < s.push(a).len() && s.push(a)[i] == x;
            if i < s.len() {
                assert(s[i] == x);
            }
        }
        if s.contains(x) {
            let i = choose|i: int| 0 <= i < s.len() && s[i] == x;
            assert(s.push(a)[i] == x);
        }
        if x == a {
            assert(s.push(a)[s.len() as int] == a);
        }
    }
    assert(s.push(a).to_set() =~= s.to_set().insert(a));
}

/// The order of texts.
pub open spec fn text_key_fn() -> spec_fn(Seq<char>) -> Seq<u32> {
    |t: Seq<char>| text_key(t)
}

/// A strictly key-sorted list of strings is ascending by text.
pub proof fn lemma_sorted_texts_ascending(v: Seq<String>)
    requires
        strictly_sorted_by_key(v),
    ensures
        ascending_by(v.map_values(|s: String| s@), text_key_fn()),
{
    let w = v.map_values(|s: String| s@);
    assert forall|i: int, j: int| 0 <= i < j < w.len() implies key_lt(
        text_key_fn()(#[trigger] w[i]),
        text_key_fn()(#[trigger] w[j]),
    ) by {
        assert(v[i].sort_key() == text_key(w[i]));
        assert(v[j].sort_key() == text_key(w[j]));
    }
}

/// A strictly key-sorted sequence is ascending by its key function.
pub proof fn lemma_strictly_sorted_ascending<T: SortKey>(v: Seq<T>)
    requires
        strictly_sorted_by_key(v),
    ensures
        ascending_by(v, key_of::<T>()),
{
    assert forall|i: int, j: int| 0 <= i < j < v.len() implies key_lt(
        key_of::<T>()(#[trigger] v[i]),
        key_of::<T>()(#[trigger] v[j]),
    ) by {
        assert(key_lt(v[i].sort_key(), v[j].sort_key()));
    }
}

/// Sorting a list of strings and removing duplicates keeps exactly its distinct texts.
pub fn sorted_texts(v: Vec<String>) -> (r: Vec<String>)
    ensures
        strictly_sorted_by_key(r@),
        same_members(r@.map_values(|s: String| s@), v@.map_values(|s: String| s@)),
{
    let ghost given = v@;
    let r = sort_unique_by_key(v);
    proof {
        let rv = r@.map_values(|s: String| s@);
        let ov = given.map_values(|s: String| s@);
        assert forall|x: Seq<char>| rv.contains(x) <==> ov.contains(x) by {
            if rv.contains(x) {
                let i = choose|i: int| 0 <= i < rv.len() && rv[i] == x;
                assert(given.contains(r@[i]));
                let j = choose|j: int| 0 <= j < given.len() && given[j] == r@[i];
                assert(ov[j] == x);
            }
            if ov.contains(x) {
                let j = choose|j: int| 0 <= j < ov.len() && ov[j] == x;
                assert(holds_key_of(r@, given[j]));
                let i = choose|i: int| 0 <= i < r@.len() && r@[i].sort_key() == given[j].sort_key();
                lemma_text_key_injective(r@[i]@, Seq::empty(), given[j]@, Seq::empty());
                assert(text_key(r@[i]@) + Seq::<u32>::empty() =~= text_key(r@[i]@));
                assert(text_key(given[j]@) + Seq::<u32>::empty() =~= text_key(given[j]@));
                assert(rv[i] == x);
            }
        }
    }
    r
}

/// Mapping two permutations of one another gives two permutations.
pub proof fn lemma_map_permutes<T, U>(a: Seq<T>, b: Seq<T>, f: spec_fn(T) -> U)
    requires
        a.to_multiset() == b.to_multiset(),
    ensures
        a.map_values(f).to_multiset() == b.map_values(f).to_multiset(),
    decreases a.len(),
{
    broadcast use vstd::multiset::group_multiset_axioms;
    broadcast use vstd::seq_lib::group_to_multiset_ensures;

    if a.len() == 0 {
        assert(b.len() == b.to_multiset().len());
        assert(a.map_values(f) =~= b.map_values(f));
    } else {
        let x = a.last();
        let a1 = a.drop_last();
        assert(a =~= a1.push(x));
        assert(a.to_multiset().count(x) > 0);
        assert(b.contains(x));
        let j = choose|j: int| 0 <= j < b.len() && b[j] == x;
        let b1 = b.remove(j);
        assert(a1.to_multiset() =~= b1.to_multiset()) by {
            assert(a.to_multiset() == a1.to_multiset().insert(x));
            assert(b1.to_multiset() == b.to_multiset().remove(x));
        }
        lemma_map_permutes(a1, b1, f);
        assert(a.map_values(f) =~= a1.map_values(f).push(f(x)));
        assert(b.map_values(f) =~= b1.map_values(f).insert(j, f(x)));
        assert(a.map_values(f).to_multiset() =~= b.map_values(f).to_multiset());
    }
}

} // verus!
