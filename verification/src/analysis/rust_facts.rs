//! Syntactic facts of a Rust source file, and what the projection reads of them:
//! declarations, their fields, the unique type a field refers to, the attributes
//! that lead an item, and the serde names of fields and variants.

use vstd::prelude::*;
use crate::analysis::serde_names::{case_rule, serde_argument, serde_string_argument, apply_case_rule};
use crate::analysis::candidate::texts_eq;
use crate::order::{key_of, lemma_stable_sort_map_on, sort_by_key, stable_sort_by, SortKey};
use crate::text::{char_is_ascii_alnum, chars_of, clone_texts, is_ascii_alnum, joined, views};

verus! {

/// The kinds of syntactic fact the projection reads.
#[derive(Debug, Clone, Copy, PartialEq, Eq, Structural)]
pub enum RustFactKind {
    Module,
    Struct,
    Enum,
    Field,
    Variant,
    Attribute,
    TypeExpression,
    Other,
}

/// A byte range of the source.
#[derive(Debug, Clone, Copy, PartialEq, Eq, Structural)]
pub struct ByteSpan {
    pub start_byte: usize,
    pub end_byte: usize,
}

/// One syntactic fact: its kind, its name if it has one, the names of the items
/// that contain it, where it stands and its text.
#[derive(Debug, Clone)]
pub struct RustFact {
    pub kind: RustFactKind,
    pub name: Option<String>,
    pub container: Vec<String>,
    pub span: ByteSpan,
    pub text: String,
}

/// The facts of one file and how many parse diagnostics it had.
#[derive(Debug, Clone)]
pub struct RustExtraction {
    pub facts: Vec<RustFact>,
    pub diagnostics: usize,
}

pub struct FactView {
    pub kind: RustFactKind,
    pub name: Option<Seq<char>>,
    pub container: Seq<Seq<char>>,
    pub start: usize,
    pub end: usize,
    pub text: Seq<char>,
}

impl View for RustFact {
    type V = FactView;

    open spec fn view(&self) -> FactView {
        FactView {
            kind: self.kind,
            name: match self.name {
                Some(n) => Some(n@),
                None => None,
            },
            container: views(self.container@),
            start: self.span.start_byte,
            end: self.span.end_byte,
            text: self.text@,
        }
    }
}

pub open spec fn fact_views(s: Seq<RustFact>) -> Seq<FactView> {
    s.map_values(|f: RustFact| f@)
}

// ---- declarations ----

/// The facts, below `n`, that declare a named struct or enum.
pub open spec fn decls_upto(fs: Seq<FactView>, n: int) -> Seq<int>
    decreases n,
{
    if n <= 0 || n > fs.len() {
        Seq::empty()
    } else if (fs[n - 1].kind == RustFactKind::Struct || fs[n - 1].kind == RustFactKind::Enum) && fs[n - 1].name is Some {
        decls_upto(fs, n - 1).push(n - 1)
    } else {
        decls_upto(fs, n - 1)
    }
}

pub open spec fn decls(fs: Seq<FactView>) -> Seq<int> {
    decls_upto(fs, fs.len() as int)
}

/// The path of a declaration: its container, then its own name.
pub open spec fn full_container(f: FactView) -> Seq<Seq<char>> {
    f.container.push(f.name->Some_0)
}

/// `a::b::C` for a declaration.
pub open spec fn qualified(f: FactView) -> Seq<char> {
    joined(full_container(f), "::"@)
}

/// The declarations, below `n`, named `name`: positions in the declaration list.
pub open spec fn named_upto(fs: Seq<FactView>, ds: Seq<int>, name: Seq<char>, n: int) -> Seq<int>
    decreases n,
{
    if n <= 0 || n > ds.len() {
        Seq::empty()
    } else if fs[ds[n - 1]].name == Some(name) {
        named_upto(fs, ds, name, n - 1).push(n - 1)
    } else {
        named_upto(fs, ds, name, n - 1)
    }
}

pub open spec fn named(fs: Seq<FactView>, ds: Seq<int>, name: Seq<char>) -> Seq<int> {
    named_upto(fs, ds, name, ds.len() as int)
}

/// The facts, below `n`, of kind `kind` directly inside the declaration `d`.
pub open spec fn members_upto(fs: Seq<FactView>, d: FactView, kind: RustFactKind, n: int) -> Seq<int>
    decreases n,
{
    if n <= 0 || n > fs.len() {
        Seq::empty()
    } else if fs[n - 1].kind == kind && fs[n - 1].container == full_container(d) {
        members_upto(fs, d, kind, n - 1).push(n - 1)
    } else {
        members_upto(fs, d, kind, n - 1)
    }
}

pub open spec fn members(fs: Seq<FactView>, d: FactView, kind: RustFactKind) -> Seq<int> {
    members_upto(fs, d, kind, fs.len() as int)
}

// ---- the type a field refers to ----

/// The first type expression, at or after `i`, inside the field.
pub open spec fn type_fact_from(fs: Seq<FactView>, field: FactView, i: int) -> Option<int>
    decreases fs.len() - i,
{
    if i < 0 || i >= fs.len() {
        None
    } else if fs[i].kind == RustFactKind::TypeExpression && fs[i].container == field.container
        && fs[i].start >= field.start && fs[i].end <= field.end {
        Some(i)
    } else {
        type_fact_from(fs, field, i + 1)
    }
}

pub open spec fn ident_char(c: char) -> bool {
    is_ascii_alnum(c) || c == '_'
}

/// The identifiers finished and the identifier in progress after `n` characters.
pub open spec fn idents_upto(t: Seq<char>, n: int) -> (Set<Seq<char>>, Seq<char>)
    decreases n,
{
    if n <= 0 || n > t.len() {
        (Set::empty(), Seq::empty())
    } else {
        let (set, cur) = idents_upto(t, n - 1);
        if ident_char(t[n - 1]) {
            (set, cur.push(t[n - 1]))
        } else if cur.len() > 0 {
            (set.insert(cur), Seq::empty())
        } else {
            (set, cur)
        }
    }
}

/// The maximal runs of ASCII letters, digits and `_` in a text.
pub open spec fn identifiers(t: Seq<char>) -> Set<Seq<char>> {
    let (set, cur) = idents_upto(t, t.len() as int);
    if cur.len() > 0 {
        set.insert(cur)
    } else {
        set
    }
}

/// Some identifier names two or more declarations.
pub open spec fn ambiguous(fs: Seq<FactView>, ds: Seq<int>, ids: Set<Seq<char>>) -> bool {
    exists|id: Seq<char>| ids.contains(id) && #[trigger] named(fs, ds, id).len() >= 2
}

/// Every identifier that names exactly one declaration names `k`, and one does.
pub open spec fn resolves_to(fs: Seq<FactView>, ds: Seq<int>, ids: Set<Seq<char>>, k: int) -> bool {
    &&& exists|id: Seq<char>| ids.contains(id) && #[trigger] named(fs, ds, id).len() == 1 && named(fs, ds, id)[0] == k
    &&& forall|id: Seq<char>| ids.contains(id) && #[trigger] named(fs, ds, id).len() == 1 ==> named(fs, ds, id)[0] == k
}

/// The one declaration (a position in the declaration list) that a field's
/// type refers to, when its identifiers name exactly one.
pub open spec fn field_target(fs: Seq<FactView>, ds: Seq<int>, field: FactView) -> Option<int> {
    match type_fact_from(fs, field, 0) {
        None => None,
        Some(t) => {
            let ids = identifiers(fs[t].text);
            if ambiguous(fs, ds, ids) {
                None
            } else if exists|k: int| resolves_to(fs, ds, ids, k) {
                Some(choose|k: int| resolves_to(fs, ds, ids, k))
            } else {
                None
            }
        },
    }
}

// ---- attributes and names ----

pub open spec fn is_ascii_space(b: u8) -> bool {
    b == 32 || b == 9 || b == 10 || b == 12 || b == 13
}

/// Only ASCII white space lies between `start` and `end`.
pub open spec fn whitespace_only(bytes: Seq<u8>, start: int, end: int) -> bool {
    &&& start <= end <= bytes.len()
    &&& forall|i: int| start <= i < end ==> is_ascii_space(#[trigger] bytes[i])
}

/// The attributes, below `n`, in the container of `owner` that end before it starts.
pub open spec fn attributes_upto(fs: Seq<FactView>, owner: FactView, n: int) -> Seq<int>
    decreases n,
{
    if n <= 0 || n > fs.len() {
        Seq::empty()
    } else if fs[n - 1].kind == RustFactKind::Attribute && fs[n - 1].container == owner.container
        && fs[n - 1].end <= owner.start {
        attributes_upto(fs, owner, n - 1).push(n - 1)
    } else {
        attributes_upto(fs, owner, n - 1)
    }
}

/// A byte offset as a key.
pub open spec fn offset_key(n: usize) -> Seq<u32> {
    seq![(n as int / 0x1_0000_0000int) as u32, (n as int % 0x1_0000_0000int) as u32]
}

pub open spec fn start_key_fn(fs: Seq<FactView>) -> spec_fn(int) -> Seq<u32> {
    |i: int| offset_key(fs[i].start)
}

/// Of the first `k` attributes, the run that leads up to `cursor` with only
/// white space between them.
pub open spec fn leading_run(fs: Seq<FactView>, bytes: Seq<u8>, sorted: Seq<int>, k: int, cursor: int) -> Seq<int>
    decreases k,
{
    if k <= 0 || k > sorted.len() {
        Seq::empty()
    } else if whitespace_only(bytes, fs[sorted[k - 1]].end as int, cursor) {
        leading_run(fs, bytes, sorted, k - 1, fs[sorted[k - 1]].start as int).push(sorted[k - 1])
    } else {
        Seq::empty()
    }
}

/// The attributes directly in front of an item, in source order.
pub open spec fn leading(fs: Seq<FactView>, bytes: Seq<u8>, owner: FactView) -> Seq<int> {
    let sorted = crate::order::stable_sort_by(attributes_upto(fs, owner, fs.len() as int), start_key_fn(fs));
    leading_run(fs, bytes, sorted, sorted.len() as int, owner.start as int)
}

/// The value of `key` in the first of the attributes that has one.
pub open spec fn first_argument(fs: Seq<FactView>, attrs: Seq<int>, key: Seq<char>) -> Option<Seq<char>>
    decreases attrs.len(),
{
    if attrs.len() == 0 {
        None
    } else if serde_argument(fs[attrs[0]].text, key) is Some {
        serde_argument(fs[attrs[0]].text, key)
    } else {
        first_argument(fs, attrs.drop_first(), key)
    }
}

/// The name serde gives a field: its explicit `rename`, else its name under
/// the container's `rename_all` rule.
pub open spec fn serialized(fs: Seq<FactView>, field_name: Seq<char>, attrs: Seq<int>, rename_all: Option<Seq<char>>) -> Option<Seq<char>> {
    match first_argument(fs, attrs, "rename"@) {
        Some(explicit) => Some(explicit),
        None => match rename_all {
            Some(rule) => case_rule(field_name, rule),
            None => None,
        },
    }
}

/// The serialized names of the first `n` variants, if every one has one.
pub open spec fn variant_names(fs: Seq<FactView>, variants: Seq<int>, rule: Seq<char>, n: int) -> Option<Seq<Seq<char>>>
    decreases n,
{
    if n <= 0 || n > variants.len() {
        Some(Seq::empty())
    } else {
        match variant_names(fs, variants, rule, n - 1) {
            None => None,
            Some(prev) => match fs[variants[n - 1]].name {
                None => None,
                Some(name) => match case_rule(name, rule) {
                    None => None,
                    Some(v) => Some(prev.push(v)),
                },
            },
        }
    }
}

/// The closed value set of an enum: every variant's name under the enum's
/// `rename_all` rule; none without the rule, without variants, or when a
/// variant cannot be named.
pub open spec fn enum_values(fs: Seq<FactView>, bytes: Seq<u8>, d: FactView) -> Option<Seq<Seq<char>>> {
    match first_argument(fs, leading(fs, bytes, d), "rename_all"@) {
        None => None,
        Some(rule) => {
            let variants = members(fs, d, RustFactKind::Variant);
            if variants.len() == 0 {
                None
            } else {
                variant_names(fs, variants, rule, variants.len() as int)
            }
        },
    }
}

// ---- executable parts ----

pub open spec fn ints(v: Seq<usize>) -> Seq<int> {
    v.map_values(|x: usize| x as int)
}

/// The facts that declare named structs and enums.
pub fn collect_declarations(facts: &Vec<RustFact>) -> (r: Vec<usize>)
    ensures
        ints(r@) == decls(fact_views(facts@)),
        forall|k: int| 0 <= k < r@.len() ==> (#[trigger] r@[k]) < facts@.len(),
{
    let ghost fs = fact_views(facts@);
    let mut r: Vec<usize> = Vec::new();
    let mut i: usize = 0;
    while i < facts.len()
        invariant
            i <= facts.len(),
            fs == fact_views(facts@),
            ints(r@) == decls_upto(fs, i as int),
            forall|k: int| 0 <= k < r@.len() ==> (#[trigger] r@[k]) < i,
        decreases facts.len() - i,
    {
        let f = &facts[i];
        assert(fs[i as int] == f@);
        let ghost before = r@;
        if (f.kind == RustFactKind::Struct || f.kind == RustFactKind::Enum) && f.name.is_some() {
            r.push(i);
            assert(ints(r@) =~= ints(before).push(i as int));
        }
        i = i + 1;
    }
    r
}

/// The container of a named declaration followed by its name.
pub fn full_container_of(f: &RustFact) -> (r: Vec<String>)
    requires
        f.name is Some,
    ensures
        views(r@) == full_container(f@),
{
    let mut r = clone_texts(&f.container);
    let ghost before = r@;
    match &f.name {
        Some(n) => {
            r.push(n.clone());
        },
        None => {},
    }
    assert(views(r@) =~= views(before).push(f@.name->Some_0));
    r
}

/// The facts of a kind directly inside a declaration.
pub fn members_of(facts: &Vec<RustFact>, d: &RustFact, kind: RustFactKind) -> (r: Vec<usize>)
    requires
        d.name is Some,
    ensures
        ints(r@) == members(fact_views(facts@), d@, kind),
        forall|k: int| 0 <= k < r@.len() ==> (#[trigger] r@[k]) < facts@.len(),
{
    let ghost fs = fact_views(facts@);
    let full = full_container_of(d);
    let mut r: Vec<usize> = Vec::new();
    let mut i: usize = 0;
    while i < facts.len()
        invariant
            i <= facts.len(),
            fs == fact_views(facts@),
            views(full@) == full_container(d@),
            ints(r@) == members_upto(fs, d@, kind, i as int),
            forall|k: int| 0 <= k < r@.len() ==> (#[trigger] r@[k]) < i,
        decreases facts.len() - i,
    {
        let f = &facts[i];
        assert(fs[i as int] == f@);
        let ghost before = r@;
        if f.kind == kind && texts_eq(f.container.as_slice(), full.as_slice()) {
            r.push(i);
            assert(ints(r@) =~= ints(before).push(i as int));
        }
        i = i + 1;
    }
    r
}

/// How many declarations have a name, and the first of them.
fn named_lookup(facts: &Vec<RustFact>, ds: &Vec<usize>, name: &Vec<char>) -> (r: (usize, usize))
    requires
        forall|k: int| 0 <= k < ds@.len() ==> (#[trigger] ds@[k]) < facts@.len(),
    ensures
        r.0 == named(fact_views(facts@), ints(ds@), name@).len(),
        r.0 >= 1 ==> r.1 as int == named(fact_views(facts@), ints(ds@), name@)[0],
        r.0 >= 1 ==> r.1 < ds@.len(),
{
    let ghost fs = fact_views(facts@);
    let ghost dv = ints(ds@);
    let mut count: usize = 0;
    let mut first: usize = 0;
    let mut k: usize = 0;
    while k < ds.len()
        invariant
            k <= ds.len(),
            fs == fact_views(facts@),
            dv == ints(ds@),
            forall|q: int| 0 <= q < ds@.len() ==> (#[trigger] ds@[q]) < facts@.len(),
            count == named_upto(fs, dv, name@, k as int).len(),
            count <= k,
            count >= 1 ==> first as int == named_upto(fs, dv, name@, k as int)[0],
            count >= 1 ==> first < ds.len(),
        decreases ds.len() - k,
    {
        let f = &facts[ds[k]];
        assert(fs[dv[k as int]] == f@);
        let same = match &f.name {
            Some(n) => {
                let nc = chars_of(n.as_str());
                crate::text::chars_eq(nc.as_slice(), name.as_slice())
            },
            None => false,
        };
        if same {
            if count == 0 {
                first = k;
            }
            count = count + 1;
        }
        k = k + 1;
    }
    (count, first)
}

pub open spec fn some_single(fs: Seq<FactView>, dv: Seq<int>, done: Set<Seq<char>>) -> bool {
    exists|id: Seq<char>| done.contains(id) && #[trigger] named(fs, dv, id).len() == 1
}

pub open spec fn some_single_to(fs: Seq<FactView>, dv: Seq<int>, done: Set<Seq<char>>, k: int) -> bool {
    exists|id: Seq<char>| done.contains(id) && #[trigger] named(fs, dv, id).len() == 1 && named(fs, dv, id)[0] == k
}

pub open spec fn some_single_other(fs: Seq<FactView>, dv: Seq<int>, done: Set<Seq<char>>, k: int) -> bool {
    exists|id: Seq<char>| done.contains(id) && #[trigger] named(fs, dv, id).len() == 1 && named(fs, dv, id)[0] != k
}

proof fn lemma_insert_predicates(fs: Seq<FactView>, dv: Seq<int>, done: Set<Seq<char>>, cur: Seq<char>, k: int)
    ensures
        some_single(fs, dv, done.insert(cur)) == (some_single(fs, dv, done) || named(fs, dv, cur).len() == 1),
        some_single_to(fs, dv, done.insert(cur), k) == (some_single_to(fs, dv, done, k) || (named(fs, dv, cur).len() == 1 && named(fs, dv, cur)[0] == k)),
        some_single_other(fs, dv, done.insert(cur), k) == (some_single_other(fs, dv, done, k) || (named(fs, dv, cur).len() == 1 && named(fs, dv, cur)[0] != k)),
{
    if some_single(fs, dv, done.insert(cur)) {
        let id = choose|id: Seq<char>| done.insert(cur).contains(id) && #[trigger] named(fs, dv, id).len() == 1;
        if id != cur {
            assert(done.contains(id));
        }
    }
    if some_single(fs, dv, done) {
        let id = choose|id: Seq<char>| done.contains(id) && #[trigger] named(fs, dv, id).len() == 1;
        assert(done.insert(cur).contains(id));
    }
    if named(fs, dv, cur).len() == 1 {
        assert(done.insert(cur).contains(cur));
    }
    if some_single_to(fs, dv, done.insert(cur), k) {
        let id = choose|id: Seq<char>| done.insert(cur).contains(id) && #[trigger] named(fs, dv, id).len() == 1 && named(fs, dv, id)[0] == k;
        if id != cur {
            assert(done.contains(id));
        }
    }
    if some_single_to(fs, dv, done, k) {
        let id = choose|id: Seq<char>| done.contains(id) && #[trigger] named(fs, dv, id).len() == 1 && named(fs, dv, id)[0] == k;
        assert(done.insert(cur).contains(id));
    }
    if some_single_other(fs, dv, done.insert(cur), k) {
        let id = choose|id: Seq<char>| done.insert(cur).contains(id) && #[trigger] named(fs, dv, id).len() == 1 && named(fs, dv, id)[0] != k;
        if id != cur {
            assert(done.contains(id));
        }
    }
    if some_single_other(fs, dv, done, k) {
        let id = choose|id: Seq<char>| done.contains(id) && #[trigger] named(fs, dv, id).len() == 1 && named(fs, dv, id)[0] != k;
        assert(done.insert(cur).contains(id));
    }
}

/// What the scan of a type's identifiers has learned about a set of them.
pub open spec fn tracking(fs: Seq<FactView>, dv: Seq<int>, done: Set<Seq<char>>, resolved: Option<usize>, multi: bool) -> bool {
    &&& (resolved is None <==> !some_single(fs, dv, done))
    &&& (resolved matches Some(k) ==> some_single_to(fs, dv, done, k as int))
    &&& (resolved matches Some(k) ==> (multi <==> some_single_other(fs, dv, done, k as int)))
}

/// Records one identifier of a field's type; true when it names two or more declarations.
fn note_identifier(
    facts: &Vec<RustFact>,
    ds: &Vec<usize>,
    name: &Vec<char>,
    resolved: &mut Option<usize>,
    multi: &mut bool,
    Ghost(done): Ghost<Set<Seq<char>>>,
) -> (ambiguous_name: bool)
    requires
        forall|k: int| 0 <= k < ds@.len() ==> (#[trigger] ds@[k]) < facts@.len(),
        tracking(fact_views(facts@), ints(ds@), done, *old(resolved), *old(multi)),
        *old(resolved) matches Some(k) ==> k < ds@.len(),
    ensures
        *final(resolved) matches Some(k) ==> k < ds@.len(),
        ambiguous_name == (named(fact_views(facts@), ints(ds@), name@).len() >= 2),
        !ambiguous_name ==> tracking(fact_views(facts@), ints(ds@), done.insert(name@), *final(resolved), *final(multi)),
{
    let ghost fs = fact_views(facts@);
    let ghost dv = ints(ds@);
    let (count, first) = named_lookup(facts, ds, name);
    proof {
        lemma_insert_predicates(fs, dv, done, name@, first as int);
        if *old(resolved) is Some {
            lemma_insert_predicates(fs, dv, done, name@, (*old(resolved))->Some_0 as int);
        }
    }
    if count >= 2 {
        return true;
    }
    if count == 1 {
        match *resolved {
            None => {
                *resolved = Some(first);
                *multi = false;
                proof {
                    if some_single_other(fs, dv, done.insert(name@), first as int) {
                        assert(!some_single(fs, dv, done));
                        assert(!some_single_other(fs, dv, done, first as int));
                    }
                }
            },
            Some(k) => {
                if k != first {
                    *multi = true;
                }
            },
        }
    }
    false
}

proof fn lemma_idents_mono(t: Seq<char>, i: int, j: int)
    requires
        0 <= i <= j <= t.len(),
    ensures
        idents_upto(t, i).0.subset_of(idents_upto(t, j).0),
    decreases j - i,
{
    if i < j {
        lemma_idents_mono(t, i, j - 1);
    }
}

fn first_type_fact(facts: &Vec<RustFact>, field: &RustFact) -> (r: Option<usize>)
    ensures
        match r {
            Some(i) => type_fact_from(fact_views(facts@), field@, 0) == Some(i as int) && i < facts@.len(),
            None => type_fact_from(fact_views(facts@), field@, 0) is None,
        },
{
    let ghost fs = fact_views(facts@);
    let mut i: usize = 0;
    while i < facts.len()
        invariant
            i <= facts.len(),
            fs == fact_views(facts@),
            type_fact_from(fs, field@, 0) == type_fact_from(fs, field@, i as int),
        decreases facts.len() - i,
    {
        let f = &facts[i];
        assert(fs[i as int] == f@);
        if f.kind == RustFactKind::TypeExpression && texts_eq(f.container.as_slice(), field.container.as_slice())
            && f.span.start_byte >= field.span.start_byte && f.span.end_byte <= field.span.end_byte {
            return Some(i);
        }
        i = i + 1;
    }
    None
}

/// The declaration that a field's type refers to, when exactly one is named.
pub fn unique_field_target(facts: &Vec<RustFact>, ds: &Vec<usize>, field: &RustFact) -> (r: Option<usize>)
    requires
        forall|k: int| 0 <= k < ds@.len() ==> (#[trigger] ds@[k]) < facts@.len(),
    ensures
        match r {
            Some(k) => field_target(fact_views(facts@), ints(ds@), field@) == Some(k as int) && k < ds@.len(),
            None => field_target(fact_views(facts@), ints(ds@), field@) is None,
        },
{
    let ghost fs = fact_views(facts@);
    let ghost dv = ints(ds@);
    let i = match first_type_fact(facts, field) {
        Some(i) => i,
        None => {
            return None;
        },
    };
    let text = chars_of(facts[i].text.as_str());
    let ghost t = text@;
    assert(t == fs[i as int].text);
    let ghost all = identifiers(t);
    let mut resolved: Option<usize> = None;
    let mut multi = false;
    let mut current: Vec<char> = Vec::new();
    let mut j: usize = 0;
    assert(idents_upto(t, 0).0 =~= Set::<Seq<char>>::empty());
    while j < text.len()
        invariant
            j <= text.len(),
            t == text@,
            fs == fact_views(facts@),
            dv == ints(ds@),
            all == identifiers(t),
            type_fact_from(fs, field@, 0) == Some(i as int),
            i < facts@.len(),
            t == fs[i as int].text,
            forall|q: int| 0 <= q < ds@.len() ==> (#[trigger] ds@[q]) < facts@.len(),
            current@ == idents_upto(t, j as int).1,
            idents_upto(t, j as int).0.subset_of(all),
            forall|id: Seq<char>| idents_upto(t, j as int).0.contains(id) ==> #[trigger] named(fs, dv, id).len() < 2,
            tracking(fs, dv, idents_upto(t, j as int).0, resolved, multi),
            resolved matches Some(k) ==> k < ds@.len(),
        decreases text.len() - j,
    {
        let ghost old_done = idents_upto(t, j as int).0;
        let ghost cur = current@;
        proof {
            lemma_idents_mono(t, j + 1, t.len() as int);
            assert(idents_upto(t, j + 1) == (if ident_char(t[j as int]) {
                (old_done, cur.push(t[j as int]))
            } else if cur.len() > 0 {
                (old_done.insert(cur), Seq::<char>::empty())
            } else {
                (old_done, cur)
            }));
        }
        if char_is_ascii_alnum(text[j]) || text[j] == '_' {
            current.push(text[j]);
        } else {
            if current.len() > 0 {
                if note_identifier(facts, ds, &current, &mut resolved, &mut multi, Ghost(old_done)) {
                    proof {
                        assert(all.contains(cur));
                        assert(ambiguous(fs, dv, all));
                    }
                    return None;
                }
                proof {
                    assert forall|id: Seq<char>| old_done.insert(cur).contains(id) implies #[trigger] named(fs, dv, id).len() < 2 by {
                        if id != cur {
                            assert(old_done.contains(id));
                        }
                    }
                }
            }
            current = Vec::new();
        }
        j = j + 1;
    }
    let ghost last_done = idents_upto(t, t.len() as int).0;
    let ghost cur = current@;
    if current.len() > 0 {
        if note_identifier(facts, ds, &current, &mut resolved, &mut multi, Ghost(last_done)) {
            proof {
                assert(all.contains(cur));
                assert(ambiguous(fs, dv, all));
            }
            return None;
        }
        proof {
            assert(all =~= last_done.insert(cur));
            assert forall|id: Seq<char>| all.contains(id) implies #[trigger] named(fs, dv, id).len() < 2 by {
                if id != cur {
                    assert(last_done.contains(id));
                }
            }
        }
    } else {
        assert(all =~= last_done);
    }
    assert(tracking(fs, dv, all, resolved, multi));
    assert forall|id: Seq<char>| all.contains(id) implies #[trigger] named(fs, dv, id).len() < 2 by {}
    proof {
        assert(!ambiguous(fs, dv, all));
    }
    match resolved {
        Some(k) => {
            if multi {
                proof {
                    assert forall|k2: int| !resolves_to(fs, dv, all, k2) by {
                        if resolves_to(fs, dv, all, k2) {
                            let id1 = choose|id: Seq<char>| all.contains(id) && #[trigger] named(fs, dv, id).len() == 1 && named(fs, dv, id)[0] == k as int;
                            let id2 = choose|id: Seq<char>| all.contains(id) && #[trigger] named(fs, dv, id).len() == 1 && named(fs, dv, id)[0] != k as int;
                        }
                    }
                }
                None
            } else {
                proof {
                    assert(resolves_to(fs, dv, all, k as int));
                    let c = choose|k2: int| resolves_to(fs, dv, all, k2);
                    let id1 = choose|id: Seq<char>| all.contains(id) && #[trigger] named(fs, dv, id).len() == 1 && named(fs, dv, id)[0] == c;
                }
                Some(k)
            }
        },
        None => {
            proof {
                assert forall|k2: int| !resolves_to(fs, dv, all, k2) by {
                    if resolves_to(fs, dv, all, k2) {
                        let id1 = choose|id: Seq<char>| all.contains(id) && #[trigger] named(fs, dv, id).len() == 1 && named(fs, dv, id)[0] == k2;
                    }
                }
            }
            None
        },
    }
}

fn whitespace_only_exec(bytes: &[u8], start: usize, end: usize) -> (r: bool)
    ensures
        r == whitespace_only(bytes@, start as int, end as int),
{
    if start > end || end > bytes.len() {
        return false;
    }
    let mut i: usize = start;
    while i < end
        invariant
            start <= i <= end,
            end <= bytes@.len(),
            forall|q: int| start <= q < i ==> is_ascii_space(#[trigger] bytes@[q]),
        decreases end - i,
    {
        let b = bytes[i];
        if !(b == 32 || b == 9 || b == 10 || b == 12 || b == 13) {
            return false;
        }
        i = i + 1;
    }
    true
}

/// An attribute's position, ordered by where it starts.
struct AttrAt {
    index: usize,
    start: usize,
}

impl SortKey for AttrAt {
    closed spec fn sort_key(&self) -> Seq<u32> {
        offset_key(self.start)
    }

    fn sort_key_exec(&self) -> (k: Vec<u32>) {
        let s64 = self.start as u64;
        let hi = (s64 / 4294967296u64) as u32;
        let lo = (s64 % 4294967296u64) as u32;
        let mut k: Vec<u32> = Vec::new();
        k.push(hi);
        k.push(lo);
        assert(k@ =~= offset_key(self.start));
        k
    }
}

spec fn attr_index_fn() -> spec_fn(AttrAt) -> int {
    |a: AttrAt| a.index as int
}

/// The attributes directly in front of an item, in source order.
pub fn leading_attributes(facts: &Vec<RustFact>, owner: &RustFact, bytes: &[u8]) -> (r: Vec<usize>)
    ensures
        ints(r@) == leading(fact_views(facts@), bytes@, owner@),
        forall|k: int| 0 <= k < r@.len() ==> (#[trigger] r@[k]) < facts@.len(),
{
    let ghost fs = fact_views(facts@);
    let mut found: Vec<AttrAt> = Vec::new();
    let mut i: usize = 0;
    while i < facts.len()
        invariant
            i <= facts.len(),
            fs == fact_views(facts@),
            found@.map_values(attr_index_fn()) == attributes_upto(fs, owner@, i as int),
            forall|k: int| 0 <= k < found@.len() ==> (#[trigger] found@[k]).index < i && found@[k].start == fs[found@[k].index as int].start,
        decreases facts.len() - i,
    {
        let f = &facts[i];
        assert(fs[i as int] == f@);
        let ghost before = found@;
        if f.kind == RustFactKind::Attribute && texts_eq(f.container.as_slice(), owner.container.as_slice())
            && f.span.end_byte <= owner.span.start_byte {
            found.push(AttrAt { index: i, start: f.span.start_byte });
            assert(found@.map_values(attr_index_fn()) =~= before.map_values(attr_index_fn()).push(i as int));
        }
        i = i + 1;
    }
    let ghost unsorted = found@;
    let sorted = sort_by_key(found);
    proof {
        lemma_stable_sort_map_on(unsorted, key_of::<AttrAt>(), attr_index_fn(), start_key_fn(fs));
        crate::order::lemma_stable_sort_contains(unsorted, key_of::<AttrAt>());
    }
    let ghost sv = sorted@.map_values(attr_index_fn());
    assert(sv == stable_sort_by(attributes_upto(fs, owner@, fs.len() as int), start_key_fn(fs)));
    assert forall|k: int| 0 <= k < sorted@.len() implies (#[trigger] sorted@[k]).index < facts@.len() && sorted@[k].start == fs[sorted@[k].index as int].start by {
        assert(unsorted.contains(sorted@[k]));
    }
    let mut k: usize = sorted.len();
    let mut cursor: usize = owner.span.start_byte;
    while k > 0 && whitespace_only_exec(bytes, facts[sorted[k - 1].index].span.end_byte, cursor)
        invariant
            k <= sorted@.len(),
            sv == sorted@.map_values(attr_index_fn()),
            fs == fact_views(facts@),
            forall|q: int| 0 <= q < sorted@.len() ==> (#[trigger] sorted@[q]).index < facts@.len() && sorted@[q].start == fs[sorted@[q].index as int].start,
            leading_run(fs, bytes@, sv, sv.len() as int, owner@.start as int) == leading_run(fs, bytes@, sv, k as int, cursor as int) + sv.subrange(k as int, sv.len() as int),
        decreases k,
    {
        let ghost kk = k as int;
        assert(sv[kk - 1] == sorted@[kk - 1].index as int);
        assert(fs[sv[kk - 1]] == facts@[sorted@[kk - 1].index as int]@);
        cursor = facts[sorted[k - 1].index].span.start_byte;
        k = k - 1;
        assert(sv.subrange(k as int, sv.len() as int) =~= seq![sv[k as int]] + sv.subrange(k + 1, sv.len() as int));
    }
    proof {
        if k > 0 {
            assert(sv[k - 1] == sorted@[k - 1].index as int);
            assert(fs[sv[k - 1]] == facts@[sorted@[k - 1].index as int]@);
        }
        assert(leading_run(fs, bytes@, sv, k as int, cursor as int) =~= Seq::<int>::empty());
    }
    let mut r: Vec<usize> = Vec::new();
    let mut q: usize = k;
    while q < sorted.len()
        invariant
            k <= q <= sorted@.len(),
            sv == sorted@.map_values(attr_index_fn()),
            forall|t: int| 0 <= t < sorted@.len() ==> (#[trigger] sorted@[t]).index < facts@.len(),
            ints(r@) == sv.subrange(k as int, q as int),
            forall|t: int| 0 <= t < r@.len() ==> (#[trigger] r@[t]) < facts@.len(),
        decreases sorted.len() - q,
    {
        let ghost before = r@;
        r.push(sorted[q].index);
        assert(sv[q as int] == sorted@[q as int].index as int);
        assert(ints(r@) =~= ints(before).push(sorted@[q as int].index as int));
        assert(sv.subrange(k as int, q + 1) =~= sv.subrange(k as int, q as int).push(sv[q as int]));
        assert(ints(r@) =~= sv.subrange(k as int, q + 1));
        q = q + 1;
    }
    assert(ints(r@) =~= leading(fs, bytes@, owner@));
    r
}

/// The value of `key` in the first of the attributes that has one.
pub fn first_serde_argument(facts: &Vec<RustFact>, attrs: &Vec<usize>, key: &str) -> (r: Option<Vec<char>>)
    requires
        forall|k: int| 0 <= k < attrs@.len() ==> (#[trigger] attrs@[k]) < facts@.len(),
    ensures
        match r {
            Some(v) => first_argument(fact_views(facts@), ints(attrs@), key@) == Some(v@),
            None => first_argument(fact_views(facts@), ints(attrs@), key@) is None,
        },
{
    let ghost fs = fact_views(facts@);
    let key_chars = chars_of(key);
    let mut i: usize = 0;
    assert(ints(attrs@).skip(0) =~= ints(attrs@));
    while i < attrs.len()
        invariant
            i <= attrs.len(),
            fs == fact_views(facts@),
            key_chars@ == key@,
            forall|k: int| 0 <= k < attrs@.len() ==> (#[trigger] attrs@[k]) < facts@.len(),
            first_argument(fs, ints(attrs@), key@) == first_argument(fs, ints(attrs@).skip(i as int), key@),
        decreases attrs.len() - i,
    {
        let ghost rest = ints(attrs@).skip(i as int);
        assert(rest[0] == attrs@[i as int] as int);
        assert(rest.drop_first() =~= ints(attrs@).skip(i + 1));
        let f = &facts[attrs[i]];
        assert(fs[attrs@[i as int] as int] == f@);
        let text = chars_of(f.text.as_str());
        match serde_string_argument(text.as_slice(), key_chars.as_slice()) {
            Some(v) => {
                return Some(v);
            },
            None => {},
        }
        i = i + 1;
    }
    None
}

/// The name serde gives a field, if any.
pub fn serialized_name(facts: &Vec<RustFact>, field_name: &str, attrs: &Vec<usize>, rename_all: &Option<Vec<char>>) -> (r: Option<Vec<char>>)
    requires
        forall|k: int| 0 <= k < attrs@.len() ==> (#[trigger] attrs@[k]) < facts@.len(),
    ensures
        match r {
            Some(v) => serialized(fact_views(facts@), field_name@, ints(attrs@), match rename_all { Some(x) => Some(x@), None => None }) == Some(v@),
            None => serialized(fact_views(facts@), field_name@, ints(attrs@), match rename_all { Some(x) => Some(x@), None => None }) is None,
        },
{
    match first_serde_argument(facts, attrs, "rename") {
        Some(v) => Some(v),
        None => match rename_all {
            Some(rule) => {
                let name = chars_of(field_name);
                apply_case_rule(name.as_slice(), rule.as_slice())
            },
            None => None,
        },
    }
}

/// The closed value set of an enum, if it has one.
pub fn enum_closed_values(facts: &Vec<RustFact>, d: &RustFact, bytes: &[u8]) -> (r: Option<Vec<Vec<char>>>)
    requires
        d.name is Some,
    ensures
        match r {
            Some(v) => enum_values(fact_views(facts@), bytes@, d@) == Some(v@.map_values(|x: Vec<char>| x@)),
            None => enum_values(fact_views(facts@), bytes@, d@) is None,
        },
{
    let ghost fs = fact_views(facts@);
    let attrs = leading_attributes(facts, d, bytes);
    let rule = match first_serde_argument(facts, &attrs, "rename_all") {
        Some(rule) => rule,
        None => {
            return None;
        },
    };
    let variants = members_of(facts, d, RustFactKind::Variant);
    if variants.len() == 0 {
        return None;
    }
    let ghost vs = ints(variants@);
    let mut values: Vec<Vec<char>> = Vec::new();
    let mut i: usize = 0;
    while i < variants.len()
        invariant
            i <= variants.len(),
            fs == fact_views(facts@),
            vs == ints(variants@),
            vs == members(fs, d@, RustFactKind::Variant),
            vs.len() > 0,
            first_argument(fs, leading(fs, bytes@, d@), "rename_all"@) == Some(rule@),
            forall|k: int| 0 <= k < variants@.len() ==> (#[trigger] variants@[k]) < facts@.len(),
            variant_names(fs, vs, rule@, i as int) == Some(values@.map_values(|x: Vec<char>| x@)),
        decreases variants.len() - i,
    {
        let f = &facts[variants[i]];
        assert(fs[vs[i as int]] == f@);
        let name = match &f.name {
            Some(n) => chars_of(n.as_str()),
            None => {
                proof {
                    lemma_variant_names_none(fs, vs, rule@, i + 1, variants.len() as int);
                }
                return None;
            },
        };
        match apply_case_rule(name.as_slice(), rule.as_slice()) {
            Some(v) => {
                let ghost before = values@;
                values.push(v);
                assert(values@.map_values(|x: Vec<char>| x@) =~= before.map_values(|x: Vec<char>| x@).push(values@.last()@));
            },
            None => {
                proof {
                    lemma_variant_names_none(fs, vs, rule@, i + 1, variants.len() as int);
                }
                return None;
            },
        }
        i = i + 1;
    }
    Some(values)
}

proof fn lemma_variant_names_none(fs: Seq<FactView>, vs: Seq<int>, rule: Seq<char>, k: int, n: int)
    requires
        0 < k <= n <= vs.len(),
        variant_names(fs, vs, rule, k) is None,
    ensures
        variant_names(fs, vs, rule, n) is None,
    decreases n - k,
{
    if n > k {
        lemma_variant_names_none(fs, vs, rule, k, n - 1);
    }
}

} // verus!
