//! Selecting benchmark cases by repository, scenario or exact case id.

use vstd::prelude::*;
use crate::benchmark::model::BenchmarkCase;
use crate::order::{push_text_key, sort_by_key, sorted_by_key, text_key, SortKey};
use crate::text::{
    cat2, chars_of, char_is_ascii_alnum, chars_start_with, is_ascii_alnum, owned, starts_with,
    string_of, sub_chars, text_eq,
};

verus! {

broadcast use vstd::seq_lib::group_to_multiset_ensures;

#[derive(Debug, Clone, PartialEq, Eq)]
pub struct SelectorError {
    message: String,
}

impl View for SelectorError {
    type V = Seq<char>;

    closed spec fn view(&self) -> Seq<char> {
        self.message@
    }
}

impl SelectorError {
    pub fn invalid(message: String) -> (r: SelectorError)
        ensures
            r@ == message@,
    {
        SelectorError { message }
    }

    pub fn message(&self) -> (r: &str)
        ensures
            r@ == self@,
    {
        self.message.as_str()
    }
}

/// ASCII letters, digits, `-`, `_` and `.`, at least one.
pub open spec fn is_token(s: Seq<char>) -> bool {
    s.len() > 0 && forall|i: int| 0 <= i < s.len() ==> token_char(#[trigger] s[i])
}

pub open spec fn token_char(c: char) -> bool {
    is_ascii_alnum(c) || c == '-' || c == '_' || c == '.'
}

pub fn token(s: &[char]) -> (r: bool)
    ensures
        r == is_token(s@),
{
    if s.len() == 0 {
        return false;
    }
    let mut i: usize = 0;
    while i < s.len()
        invariant
            i <= s.len(),
            forall|k: int| 0 <= k < i ==> token_char(#[trigger] s@[k]),
        decreases s.len() - i,
    {
        let c = s[i];
        if !(char_is_ascii_alnum(c) || c == '-' || c == '_' || c == '.') {
            return false;
        }
        i = i + 1;
    }
    true
}

/// What a selector asks for.
pub enum Selection {
    All,
    Scenario(Seq<char>),
    Repository(Seq<char>),
    RepositoryScenario(Seq<char>, Seq<char>),
    Case(Seq<char>),
    Invalid(Seq<char>),
}

pub open spec fn scenario_prefix() -> Seq<char> {
    "scenario:"@
}

/// `all`, `scenario:NAME`, `REPOSITORY`, `REPOSITORY/SCENARIO` or `REPOSITORY/SCENARIO/CASE`.
pub open spec fn selection(s: Seq<char>) -> Selection {
    if s == "all"@ {
        Selection::All
    } else if starts_with(s, scenario_prefix()) {
        let rest = s.skip(scenario_prefix().len() as int);
        if is_token(rest) {
            Selection::Scenario(rest)
        } else {
            Selection::Invalid("invalid scenario selector"@)
        }
    } else if is_token(s) {
        Selection::Repository(s)
    } else if exists|k: int| 0 <= k < s.len() && s[k] == '/' && is_token(s.take(k)) && is_token(s.skip(k + 1)) {
        let k = choose|k: int| 0 <= k < s.len() && s[k] == '/' && is_token(s.take(k)) && is_token(s.skip(k + 1));
        Selection::RepositoryScenario(s.take(k), s.skip(k + 1))
    } else if exists|k1: int, k2: int| 0 <= k1 < k2 < s.len() && s[k1] == '/' && s[k2] == '/' && is_token(s.take(k1)) && is_token(s.subrange(k1 + 1, k2)) && is_token(s.skip(k2 + 1)) {
        Selection::Case(s)
    } else {
        Selection::Invalid("invalid benchmark selector"@)
    }
}

pub open spec fn selects(sel: Selection, c: BenchmarkCase) -> bool {
    match sel {
        Selection::All => true,
        Selection::Scenario(s) => c.scenario@ == s,
        Selection::Repository(r) => c.repository@ == r,
        Selection::RepositoryScenario(r, s) => c.repository@ == r && c.scenario@ == s,
        Selection::Case(id) => c.id@ == id,
        Selection::Invalid(_) => false,
    }
}

pub open spec fn case_of<'a>() -> spec_fn(&'a BenchmarkCase) -> BenchmarkCase {
    |r: &'a BenchmarkCase| *r
}

/// The cases that `v` refers to, in order.
pub open spec fn referred<'a>(v: Seq<&'a BenchmarkCase>) -> Seq<BenchmarkCase> {
    v.map_values(case_of())
}

/// `v` refers to the cases of `picked`, each as often as `picked` holds it.
pub open spec fn holds_exactly<'a>(v: Seq<&'a BenchmarkCase>, picked: Seq<BenchmarkCase>) -> bool {
    referred(v).to_multiset() == picked.to_multiset()
}

impl<'a> SortKey for &'a BenchmarkCase {
    open spec fn sort_key(&self) -> Seq<u32> {
        text_key(self.id@)
    }

    fn sort_key_exec(&self) -> (k: Vec<u32>) {
        let mut k: Vec<u32> = Vec::new();
        push_text_key(&mut k, self.id.as_str());
        k
    }
}

enum Parsed {
    All,
    Scenario(Vec<char>),
    Repository(Vec<char>),
    RepositoryScenario(Vec<char>, Vec<char>),
    Case(Vec<char>),
    Invalid(&'static str),
}

spec fn parsed_view(p: Parsed) -> Selection {
    match p {
        Parsed::All => Selection::All,
        Parsed::Scenario(s) => Selection::Scenario(s@),
        Parsed::Repository(r) => Selection::Repository(r@),
        Parsed::RepositoryScenario(r, s) => Selection::RepositoryScenario(r@, s@),
        Parsed::Case(s) => Selection::Case(s@),
        Parsed::Invalid(m) => Selection::Invalid(m@),
    }
}

fn parse_selector(selector: &str) -> (r: Parsed)
    ensures
        parsed_view(r) == selection(selector@),
{
    let s = chars_of(selector);
    if text_eq(selector, "all") {
        return Parsed::All;
    }
    let prefix = chars_of("scenario:");
    if chars_start_with(&s, &prefix) {
        let rest = sub_chars(&s, prefix.len(), s.len());
        assert(rest@ =~= s@.skip(prefix@.len() as int));
        if token(&rest) {
            return Parsed::Scenario(rest);
        }
        return Parsed::Invalid("invalid scenario selector");
    }
    if token(&s) {
        return Parsed::Repository(s);
    }
    let mut k1: usize = 0;
    while k1 < s.len() && s[k1] != '/'
        invariant
            k1 <= s.len(),
            forall|j: int| 0 <= j < k1 ==> s@[j] != '/',
        decreases s.len() - k1,
    {
        k1 = k1 + 1;
    }
    if k1 == s.len() {
        return Parsed::Invalid("invalid benchmark selector");
    }
    let first = sub_chars(&s, 0, k1);
    assert(first@ =~= s@.take(k1 as int));
    let mut k2: usize = k1 + 1;
    while k2 < s.len() && s[k2] != '/'
        invariant
            k1 < k2 <= s.len(),
            forall|j: int| k1 < j < k2 ==> s@[j] != '/',
        decreases s.len() - k2,
    {
        k2 = k2 + 1;
    }
    if k2 == s.len() {
        let second = sub_chars(&s, k1 + 1, s.len());
        assert(second@ =~= s@.skip(k1 + 1));
        if token(&first) && token(&second) {
            proof {
                let k = choose|k: int| 0 <= k < s@.len() && s@[k] == '/' && is_token(s@.take(k)) && is_token(s@.skip(k + 1));
                if k < k1 {
                } else if k > k1 {
                    assert(s@.take(k)[k1 as int] == '/');
                }
            }
            return Parsed::RepositoryScenario(first, second);
        }
        proof {
            assert forall|k: int| 0 <= k < s@.len() && s@[k] == '/' implies !(is_token(s@.take(k)) && is_token(s@.skip(k + 1))) by {
                if k > k1 {
                    assert(s@.take(k)[k1 as int] == '/');
                }
            }
            assert forall|a: int, b: int| 0 <= a < b < s@.len() && s@[a] == '/' && s@[b] == '/' implies !(is_token(s@.take(a)) && is_token(s@.subrange(a + 1, b)) && is_token(s@.skip(b + 1))) by {
                if a > k1 {
                    assert(s@.take(a)[k1 as int] == '/');
                }
            }
        }
        return Parsed::Invalid("invalid benchmark selector");
    }
    let second = sub_chars(&s, k1 + 1, k2);
    let third = sub_chars(&s, k2 + 1, s.len());
    assert(third@ =~= s@.skip(k2 + 1));
    proof {
        assert forall|k: int| 0 <= k < s@.len() && s@[k] == '/' implies !(is_token(s@.take(k)) && is_token(s@.skip(k + 1))) by {
            if k > k1 {
                assert(s@.take(k)[k1 as int] == '/');
            } else if k == k1 {
                assert(s@.skip(k + 1)[k2 - k1 - 1] == '/');
            }
        }
    }
    if token(&first) && token(&second) && token(&third) {
        return Parsed::Case(s);
    }
    proof {
        assert forall|a: int, b: int| 0 <= a < b < s@.len() && s@[a] == '/' && s@[b] == '/' implies !(is_token(s@.take(a)) && is_token(s@.subrange(a + 1, b)) && is_token(s@.skip(b + 1))) by {
            if a > k1 {
                assert(s@.take(a)[k1 as int] == '/');
            } else if a == k1 {
                if b > k2 {
                    assert(s@.subrange(a + 1, b)[k2 - k1 - 1] == '/');
                } else if b == k2 {
                    assert(second@ =~= s@.subrange(a + 1, b));
                }
            }
        }
    }
    Parsed::Invalid("invalid benchmark selector")
}

fn matches_case(p: &Parsed, c: &BenchmarkCase) -> (r: bool)
    ensures
        r == selects(parsed_view(*p), *c),
{
    match p {
        Parsed::All => true,
        Parsed::Scenario(s) => text_eq(c.scenario.as_str(), string_of(s).as_str()),
        Parsed::Repository(r) => text_eq(c.repository.as_str(), string_of(r).as_str()),
        Parsed::RepositoryScenario(r, s) => text_eq(c.repository.as_str(), string_of(r).as_str())
            && text_eq(c.scenario.as_str(), string_of(s).as_str()),
        Parsed::Case(id) => text_eq(c.id.as_str(), string_of(id).as_str()),
        Parsed::Invalid(_) => false,
    }
}

/// The cases that a selector picks, ordered by id. A malformed selector, or one
/// that picks nothing, is refused.
pub fn select_cases<'a>(cases: &'a [BenchmarkCase], selector: &str) -> (r: Result<Vec<&'a BenchmarkCase>, SelectorError>)
    ensures
        selection(selector@) matches Selection::Invalid(m) ==> (r is Err && r->Err_0@ == m),
        !(selection(selector@) is Invalid) ==> {
            let picked = cases@.filter(|c: BenchmarkCase| selects(selection(selector@), c));
            &&& (picked.len() == 0 ==> r is Err && r->Err_0@ == "selector matched no benchmark cases: "@ + selector@)
            &&& (picked.len() > 0 ==> (r matches Ok(v) && holds_exactly(v@, picked) && sorted_by_key(v@)))
        },
{
    let parsed = parse_selector(selector);
    if let Parsed::Invalid(message) = parsed {
        return Err(SelectorError::invalid(owned(message)));
    }
    let ghost sel = selection(selector@);
    let ghost pred = |c: BenchmarkCase| selects(sel, c);
    let mut picked: Vec<&'a BenchmarkCase> = Vec::new();
    let mut i: usize = 0;
    while i < cases.len()
        invariant
            i <= cases.len(),
            sel == parsed_view(parsed),
            pred == (|c: BenchmarkCase| selects(sel, c)),
            picked@.len() == cases@.take(i as int).filter(pred).len(),
            forall|k: int| 0 <= k < picked@.len() ==> *picked@[k] == cases@.take(i as int).filter(pred)[k],
        decreases cases.len() - i,
    {
        proof {
            assert(cases@.take(i + 1).drop_last() =~= cases@.take(i as int));
            cases@.take(i as int).lemma_filter_push(cases@[i as int], pred);
            assert(cases@.take(i + 1) =~= cases@.take(i as int).push(cases@[i as int]));
        }
        if matches_case(&parsed, &cases[i]) {
            picked.push(&cases[i]);
        }
        assert(cases@.take(i + 1) =~= cases@.take(i as int).push(cases@[i as int]));
        i = i + 1;
    }
    assert(cases@.take(cases.len() as int) =~= cases@);
    assert(pred =~= (|c: BenchmarkCase| selects(selection(selector@), c)));
    if picked.len() == 0 {
        return Err(SelectorError::invalid(cat2("selector matched no benchmark cases: ", selector)));
    }
    let ghost before = picked@;
    let sorted = sort_by_key(picked);
    proof {
        let all = cases@.filter(|c: BenchmarkCase| selects(selection(selector@), c));
        assert(all == cases@.filter(pred));
        assert(referred(before) =~= all);
        crate::order::lemma_map_permutes(sorted@, before, case_of::<'a>());
        assert(holds_exactly(sorted@, all));
    }
    Ok(sorted)
}


/// A `REPOSITORY/SCENARIO` selector picks exactly the cases of that repository
/// and that scenario: a case of another repository, or of another scenario, is
/// never picked by it.
pub proof fn law_repository_scenario_selects_both(r: Seq<char>, sc: Seq<char>, c: BenchmarkCase)
    requires
        is_token(r),
        is_token(sc),
    ensures
        selection(r + "/"@ + sc) == Selection::RepositoryScenario(r, sc),
        selects(selection(r + "/"@ + sc), c) <==> (c.repository@ == r && c.scenario@ == sc),
{
    reveal_strlit("/");
    reveal_strlit("all");
    reveal_strlit("scenario:");
    let x = r + "/"@ + sc;
    let n = r.len() as int;
    assert(x[n] == '/');
    assert forall|i: int| 0 <= i < x.len() && i != n implies token_char(#[trigger] x[i]) by {
        if i < n {
            assert(x[i] == r[i]);
        } else {
            assert(x[i] == sc[i - n - 1]);
        }
    }
    // not `all`
    if x == "all"@ {
        assert(x[n] == "all"@[n]);
    }
    // not `scenario:...`
    if starts_with(x, scenario_prefix()) {
        assert(x.take(9)[8] == ':');
        assert(!token_char(x[8]));
        assert(x[8] == ':');
    }
    // not a single token
    assert(!token_char(x[n]));
    assert(!is_token(x));
    // the only `/` splits it into the two tokens
    assert(x.take(n) =~= r);
    assert(x.skip(n + 1) =~= sc);
    assert(x[n] == '/' && is_token(x.take(n)) && is_token(x.skip(n + 1)));
    let k = choose|k: int| 0 <= k < x.len() && x[k] == '/' && is_token(x.take(k)) && is_token(x.skip(k + 1));
    if k != n {
        assert(!token_char(x[k]));
    }
}

} // verus!
