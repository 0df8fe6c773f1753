//! The typed benchmark corpus: specimens (where fixtures come from) and golden truth.

use vstd::prelude::*;
use crate::benchmark::cli::{exact_revision, is_exact_revision};
use crate::text::{
    cat2, cat3, cat4, chars_of, is_clean, is_hex_of_len, owned, starts_with, text_eq,
    text_is_clean, text_is_hex_of_len, text_starts_with,
};

verus! {

pub open spec fn specimen_schema() -> Seq<char> {
    "chirograph-benchmark-specimen-v1"@
}

pub open spec fn golden_schema() -> Seq<char> {
    "chirograph-benchmark-golden-v1"@
}

#[derive(Debug, Clone, PartialEq, Eq)]
pub struct SpecimenV1 {
    pub schema: String,
    pub id: String,
    pub repository: String,
    pub scenario: String,
    pub upstream: UpstreamV1,
    pub files: Vec<FixtureFileV1>,
}

#[derive(Debug, Clone, PartialEq, Eq)]
pub struct UpstreamV1 {
    pub repository: String,
    pub revision: String,
}

#[derive(Debug, Clone, PartialEq, Eq)]
pub struct FixtureFileV1 {
    pub fixture_path: String,
    pub upstream_path: String,
    pub sha256: String,
}

#[derive(Debug, Clone, PartialEq, Eq)]
pub struct GoldenV1 {
    pub schema: String,
    pub contracts: Vec<GoldenContractV1>,
    pub representations: Vec<GoldenRepresentationV1>,
    pub authority_claims: Vec<GoldenAuthorityClaimV1>,
    pub relationships: Vec<GoldenRelationshipV1>,
    pub clauses: Vec<GoldenClauseV1>,
    pub lifecycle: Vec<GoldenLifecycleV1>,
    pub expected_findings: Vec<GoldenFindingV1>,
    pub non_contracts: Vec<GoldenNonContractV1>,
}

#[derive(Debug, Clone, PartialEq, Eq)]
pub struct GoldenContractV1 {
    pub id: String,
    pub facets: Vec<String>,
}

#[derive(Debug, Clone, PartialEq, Eq)]
pub struct GoldenRepresentationV1 {
    pub id: String,
    pub contract: String,
    pub kind: String,
    pub locator: String,
    pub facets: Vec<String>,
}

#[derive(Debug, Clone, PartialEq, Eq)]
pub struct GoldenAuthorityClaimV1 {
    pub contract: String,
    pub facet: String,
    pub representation: String,
    pub basis: String,
}

/// A reference to a graph node: its kind (`contract` or `representation`) and id.
#[derive(Debug, Clone, PartialEq, Eq, PartialOrd, Ord)]
pub struct GraphNodeRefV1 {
    pub kind: String,
    pub id: String,
}

#[derive(Debug, Clone, PartialEq, Eq)]
pub struct GoldenRelationshipV1 {
    pub from: GraphNodeRefV1,
    pub kind: String,
    pub to: GraphNodeRefV1,
}

#[derive(Debug, Clone, PartialEq, Eq)]
pub struct GoldenClauseV1 {
    pub id: String,
    pub contract: String,
    pub facet: String,
    pub kind: String,
    pub statement: String,
}

#[derive(Debug, Clone, PartialEq, Eq)]
pub struct GoldenLifecycleV1 {
    pub subject: GraphNodeRefV1,
    pub status: String,
}

#[derive(Debug, Clone, PartialEq, Eq)]
pub enum GoldenFindingV1 {
    ContestedClause { clause: String },
}

#[derive(Debug, Clone, PartialEq, Eq)]
pub struct GoldenNonContractV1 {
    pub locator: String,
    pub reason: String,
}

#[derive(Debug, Clone, PartialEq, Eq)]
pub struct BenchmarkModelError {
    message: String,
}

impl View for BenchmarkModelError {
    type V = Seq<char>;

    closed spec fn view(&self) -> Seq<char> {
        self.message@
    }
}

impl BenchmarkModelError {
    pub fn invalid(message: String) -> (r: BenchmarkModelError)
        ensures
            r@ == message@,
    {
        BenchmarkModelError { message }
    }

    pub fn message(&self) -> (r: &str)
        ensures
            r@ == self@,
    {
        self.message.as_str()
    }
}

/// The closed vocabularies of golden truth.
#[derive(Clone, Copy)]
pub enum Vocabulary {
    Facets,
    RepresentationKinds,
    RelationKinds,
    AuthorityBases,
    ClauseKinds,
}

pub open spec fn in_vocabulary(v: Vocabulary, s: Seq<char>) -> bool {
    match v {
        Vocabulary::Facets => s == "structural"@ || s == "executable"@ || s == "semantic"@ || s
            == "failure"@ || s == "concurrency"@ || s == "recovery"@ || s == "verification"@,
        Vocabulary::RepresentationKinds => s == "executable-surface"@ || s == "source-code"@ || s
            == "schema"@ || s == "type-definition"@ || s == "validator"@ || s == "test"@ || s
            == "documentation"@ || s == "configuration"@ || s == "generated-artifact"@ || s
            == "other"@,
        Vocabulary::RelationKinds => s == "defines"@ || s == "implements"@ || s == "documents"@
            || s == "validates"@ || s == "generates"@ || s == "projects"@ || s
            == "equivalent-to"@ || s == "conflicts-with"@ || s == "depends-on"@,
        Vocabulary::AuthorityBases => s == "explicit-declaration"@ || s
            == "mechanical-enforcement"@ || s == "observed-behavior"@ || s == "documentation"@
            || s == "inference"@,
        Vocabulary::ClauseKinds => s == "requirement"@ || s == "guarantee"@ || s == "invariant"@,
    }
}

pub fn is_in_vocabulary(v: Vocabulary, s: &str) -> (r: bool)
    ensures
        r == in_vocabulary(v, s@),
{
    match v {
        Vocabulary::Facets => text_eq(s, "structural") || text_eq(s, "executable") || text_eq(
            s,
            "semantic",
        ) || text_eq(s, "failure") || text_eq(s, "concurrency") || text_eq(s, "recovery")
            || text_eq(s, "verification"),
        Vocabulary::RepresentationKinds => text_eq(s, "executable-surface") || text_eq(
            s,
            "source-code",
        ) || text_eq(s, "schema") || text_eq(s, "type-definition") || text_eq(s, "validator")
            || text_eq(s, "test") || text_eq(s, "documentation") || text_eq(s, "configuration")
            || text_eq(s, "generated-artifact") || text_eq(s, "other"),
        Vocabulary::RelationKinds => text_eq(s, "defines") || text_eq(s, "implements") || text_eq(
            s,
            "documents",
        ) || text_eq(s, "validates") || text_eq(s, "generates") || text_eq(s, "projects")
            || text_eq(s, "equivalent-to") || text_eq(s, "conflicts-with") || text_eq(
            s,
            "depends-on",
        ),
        Vocabulary::AuthorityBases => text_eq(s, "explicit-declaration") || text_eq(
            s,
            "mechanical-enforcement",
        ) || text_eq(s, "observed-behavior") || text_eq(s, "documentation") || text_eq(
            s,
            "inference",
        ),
        Vocabulary::ClauseKinds => text_eq(s, "requirement") || text_eq(s, "guarantee")
            || text_eq(s, "invariant"),
    }
}

/// The message for a field that is empty or has surrounding white space.
pub open spec fn identifier_problem(value: Seq<char>, field: Seq<char>) -> Option<Seq<char>> {
    if is_clean(value) {
        None
    } else {
        Some(field + " must be non-empty without surrounding whitespace"@)
    }
}

fn require_identifier(value: &str, field: &str) -> (r: Result<(), BenchmarkModelError>)
    ensures
        match identifier_problem(value@, field@) {
            None => r is Ok,
            Some(m) => r is Err && r->Err_0@ == m,
        },
{
    if !text_is_clean(value) {
        return Err(BenchmarkModelError::invalid(cat2(field, " must be non-empty without surrounding whitespace")));
    }
    Ok(())
}

/// `/` and `\\` separate path parts.
pub open spec fn is_separator(c: char) -> bool {
    c == '/' || c == '\\'
}

/// Some part between separators is empty or `..`, or the path is empty or absolute.
pub open spec fn unsafe_relative_path(s: Seq<char>) -> bool {
    ||| s.len() == 0
    ||| is_separator(s[0])
    ||| is_separator(s[s.len() - 1])
    ||| exists|i: int| 0 <= i < s.len() - 1 && is_separator(#[trigger] s[i]) && is_separator(s[i + 1])
    ||| exists|i: int| 0 <= i < s.len() - 1 && #[trigger] s[i] == '.' && s[i + 1] == '.' && (i == 0 || is_separator(s[i - 1])) && (i + 2 == s.len() || is_separator(s[i + 2]))
}

pub open spec fn relative_path_problem(value: Seq<char>, field: Seq<char>, prefix: Option<Seq<char>>) -> Option<Seq<char>> {
    if unsafe_relative_path(value) || (prefix matches Some(p) && !starts_with(value, p)) {
        Some(field + " must be a safe relative path"@)
    } else {
        None
    }
}

fn is_unsafe_relative_path(s: &[char]) -> (r: bool)
    ensures
        r == unsafe_relative_path(s@),
{
    let n = s.len();
    if n == 0 || s[0] == '/' || s[0] == '\\' || s[n - 1] == '/' || s[n - 1] == '\\' {
        return true;
    }
    let mut i: usize = 0;
    while i < n - 1
        invariant
            n == s.len(),
            n > 0,
            i <= n,
            forall|k: int| 0 <= k < i && k < n - 1 ==> !(is_separator(#[trigger] s@[k]) && is_separator(s@[k + 1])),
            forall|k: int| 0 <= k < i && k < n - 1 ==> !(#[trigger] s@[k] == '.' && s@[k + 1] == '.' && (k == 0 || is_separator(s@[k - 1])) && (k + 2 == n || is_separator(s@[k + 2]))),
        decreases n - i,
    {
        let a = s[i];
        let b = s[i + 1];
        if (a == '/' || a == '\\') && (b == '/' || b == '\\') {
            return true;
        }
        if a == '.' && b == '.' && (i == 0 || s[i - 1] == '/' || s[i - 1] == '\\') && (i + 2 == n || s[i + 2] == '/' || s[i + 2] == '\\') {
            return true;
        }
        i = i + 1;
    }
    false
}

fn validate_relative_path(value: &str, field: &str, prefix: Option<&str>) -> (r: Result<(), BenchmarkModelError>)
    ensures
        match relative_path_problem(value@, field@, match prefix { Some(p) => Some(p@), None => None }) {
            None => r is Ok,
            Some(m) => r is Err && r->Err_0@ == m,
        },
{
    let chars = chars_of(value);
    let bad_prefix = match prefix {
        Some(p) => !text_starts_with(value, p),
        None => false,
    };
    if is_unsafe_relative_path(&chars) || bad_prefix {
        return Err(BenchmarkModelError::invalid(cat2(field, " must be a safe relative path")));
    }
    Ok(())
}

/// Exactly 64 hexadecimal characters.
pub open spec fn is_sha256(s: Seq<char>) -> bool {
    is_hex_of_len(s, 64)
}

/// The first problem among the fixture files from position `i` on.
pub open spec fn files_problem(files: Seq<FixtureFileV1>, i: int) -> Option<Seq<char>>
    decreases files.len() - i,
{
    if i < 0 || i >= files.len() {
        None
    } else {
        let f = files[i];
        if relative_path_problem(f.fixture_path@, "fixture_path"@, Some("fixture/"@)) is Some {
            relative_path_problem(f.fixture_path@, "fixture_path"@, Some("fixture/"@))
        } else if relative_path_problem(f.upstream_path@, "upstream_path"@, None) is Some {
            relative_path_problem(f.upstream_path@, "upstream_path"@, None)
        } else if !is_sha256(f.sha256@) {
            Some("invalid sha256 for "@ + f.fixture_path@)
        } else if exists|j: int| 0 <= j < i && #[trigger] files[j].fixture_path@ == f.fixture_path@ {
            Some("duplicate fixture path: "@ + f.fixture_path@)
        } else {
            files_problem(files, i + 1)
        }
    }
}

/// The first rule of the specimen format that `v` breaks, if any.
pub open spec fn specimen_problem(v: SpecimenV1) -> Option<Seq<char>> {
    if v.schema@ != specimen_schema() {
        Some("unsupported specimen schema: "@ + v.schema@)
    } else if identifier_problem(v.id@, "specimen.id"@) is Some {
        identifier_problem(v.id@, "specimen.id"@)
    } else if identifier_problem(v.repository@, "specimen.repository"@) is Some {
        identifier_problem(v.repository@, "specimen.repository"@)
    } else if identifier_problem(v.scenario@, "specimen.scenario"@) is Some {
        identifier_problem(v.scenario@, "specimen.scenario"@)
    } else if identifier_problem(v.upstream.repository@, "specimen.upstream.repository"@) is Some {
        identifier_problem(v.upstream.repository@, "specimen.upstream.repository"@)
    } else if !is_exact_revision(v.upstream.revision@) {
        Some("specimen.upstream.revision must be exactly 40 hexadecimal characters"@)
    } else if v.files.len() == 0 {
        Some("specimen.files must contain at least one fixture"@)
    } else {
        files_problem(v.files@, 0)
    }
}

fn repeats_fixture_path(files: &Vec<FixtureFileV1>, i: usize) -> (r: bool)
    requires
        i < files.len(),
    ensures
        r == exists|j: int| 0 <= j < i && #[trigger] files@[j].fixture_path@ == files@[i as int].fixture_path@,
{
    let mut j: usize = 0;
    while j < i
        invariant
            j <= i,
            i < files.len(),
            forall|k: int| 0 <= k < j ==> #[trigger] files@[k].fixture_path@ != files@[i as int].fixture_path@,
        decreases i - j,
    {
        if text_eq(files[j].fixture_path.as_str(), files[i].fixture_path.as_str()) {
            return true;
        }
        j = j + 1;
    }
    false
}

/// Checks a specimen against the specimen format.
pub fn validate_specimen(value: &SpecimenV1) -> (r: Result<(), BenchmarkModelError>)
    ensures
        match specimen_problem(*value) {
            None => r is Ok,
            Some(m) => r is Err && r->Err_0@ == m,
        },
{
    if !text_eq(value.schema.as_str(), "chirograph-benchmark-specimen-v1") {
        return Err(BenchmarkModelError::invalid(cat2("unsupported specimen schema: ", value.schema.as_str())));
    }
    require_identifier(value.id.as_str(), "specimen.id")?;
    require_identifier(value.repository.as_str(), "specimen.repository")?;
    require_identifier(value.scenario.as_str(), "specimen.scenario")?;
    require_identifier(value.upstream.repository.as_str(), "specimen.upstream.repository")?;
    if !exact_revision(value.upstream.revision.as_str()) {
        return Err(BenchmarkModelError::invalid(owned("specimen.upstream.revision must be exactly 40 hexadecimal characters")));
    }
    if value.files.len() == 0 {
        return Err(BenchmarkModelError::invalid(owned("specimen.files must contain at least one fixture")));
    }
    let files = &value.files;
    let mut i: usize = 0;
    while i < files.len()
        invariant
            i <= files.len(),
            files@ == value.files@,
            specimen_problem(*value) == files_problem(files@, 0),
            files_problem(files@, 0) == files_problem(files@, i as int),
        decreases files.len() - i,
    {
        let file = &files[i];
        validate_relative_path(file.fixture_path.as_str(), "fixture_path", Some("fixture/"))?;
        validate_relative_path(file.upstream_path.as_str(), "upstream_path", None)?;
        if !text_is_hex_of_len(file.sha256.as_str(), 64) {
            return Err(BenchmarkModelError::invalid(cat2("invalid sha256 for ", file.fixture_path.as_str())));
        }
        if repeats_fixture_path(files, i) {
            return Err(BenchmarkModelError::invalid(cat2("duplicate fixture path: ", file.fixture_path.as_str())));
        }
        i = i + 1;
    }
    Ok(())
}

/// The first value (from position `i` on) outside the vocabulary or repeated.
pub open spec fn vocabulary_problem(values: Seq<String>, v: Vocabulary, field: Seq<char>, i: int) -> Option<Seq<char>>
    decreases values.len() - i,
{
    if i < 0 || i >= values.len() {
        None
    } else if !in_vocabulary(v, values[i]@) {
        Some("unsupported "@ + field + ": "@ + values[i]@)
    } else if exists|j: int| 0 <= j < i && #[trigger] values[j]@ == values[i]@ {
        Some("duplicate "@ + field + ": "@ + values[i]@)
    } else {
        vocabulary_problem(values, v, field, i + 1)
    }
}

fn repeats_text(values: &Vec<String>, i: usize) -> (r: bool)
    requires
        i < values.len(),
    ensures
        r == exists|j: int| 0 <= j < i && #[trigger] values@[j]@ == values@[i as int]@,
{
    let mut j: usize = 0;
    while j < i
        invariant
            j <= i,
            i < values.len(),
            forall|k: int| 0 <= k < j ==> #[trigger] values@[k]@ != values@[i as int]@,
        decreases i - j,
    {
        if text_eq(values[j].as_str(), values[i].as_str()) {
            return true;
        }
        j = j + 1;
    }
    false
}

fn check_vocabulary(values: &Vec<String>, v: Vocabulary, field: &str) -> (r: Result<(), BenchmarkModelError>)
    ensures
        match vocabulary_problem(values@, v, field@, 0) {
            None => r is Ok,
            Some(m) => r is Err && r->Err_0@ == m,
        },
{
    let mut i: usize = 0;
    while i < values.len()
        invariant
            i <= values.len(),
            vocabulary_problem(values@, v, field@, 0) == vocabulary_problem(values@, v, field@, i as int),
        decreases values.len() - i,
    {
        if !is_in_vocabulary(v, values[i].as_str()) {
            return Err(BenchmarkModelError::invalid(cat4("unsupported ", field, ": ", values[i].as_str())));
        }
        if repeats_text(values, i) {
            return Err(BenchmarkModelError::invalid(cat4("duplicate ", field, ": ", values[i].as_str())));
        }
        i = i + 1;
    }
    Ok(())
}

/// Some value is `s`.
pub open spec fn contains_text(values: Seq<String>, s: Seq<char>) -> bool {
    exists|k: int| 0 <= k < values.len() && #[trigger] values[k]@ == s
}

fn has_text(values: &Vec<String>, s: &str) -> (r: bool)
    ensures
        r == contains_text(values@, s@),
{
    let mut j: usize = 0;
    while j < values.len()
        invariant
            j <= values.len(),
            forall|k: int| 0 <= k < j ==> #[trigger] values@[k]@ != s@,
        decreases values.len() - j,
    {
        if text_eq(values[j].as_str(), s) {
            return true;
        }
        j = j + 1;
    }
    false
}

/// The first value (from position `i` on) that `within` does not hold.
pub open spec fn first_outside(values: Seq<String>, within: Seq<String>, i: int) -> Option<Seq<char>>
    decreases values.len() - i,
{
    if i < 0 || i >= values.len() {
        None
    } else if !contains_text(within, values[i]@) {
        Some(values[i]@)
    } else {
        first_outside(values, within, i + 1)
    }
}

fn first_outside_exec(values: &Vec<String>, within: &Vec<String>) -> (r: Option<usize>)
    ensures
        match r {
            Some(k) => k < values.len() && first_outside(values@, within@, 0) == Some(values@[k as int]@),
            None => first_outside(values@, within@, 0) is None,
        },
{
    let mut i: usize = 0;
    while i < values.len()
        invariant
            i <= values.len(),
            first_outside(values@, within@, 0) == first_outside(values@, within@, i as int),
        decreases values.len() - i,
    {
        if !has_text(within, values[i].as_str()) {
            return Some(i);
        }
        i = i + 1;
    }
    None
}

/// Position of the first contract with the given id.
pub open spec fn find_contract(cs: Seq<GoldenContractV1>, id: Seq<char>, i: int) -> Option<int>
    decreases cs.len() - i,
{
    if i < 0 || i >= cs.len() {
        None
    } else if cs[i].id@ == id {
        Some(i)
    } else {
        find_contract(cs, id, i + 1)
    }
}

/// Position of the first representation with the given id.
pub open spec fn find_representation(rs: Seq<GoldenRepresentationV1>, id: Seq<char>, i: int) -> Option<int>
    decreases rs.len() - i,
{
    if i < 0 || i >= rs.len() {
        None
    } else if rs[i].id@ == id {
        Some(i)
    } else {
        find_representation(rs, id, i + 1)
    }
}

fn find_contract_exec(cs: &Vec<GoldenContractV1>, id: &str) -> (r: Option<usize>)
    ensures
        match r {
            Some(k) => find_contract(cs@, id@, 0) == Some(k as int) && k < cs.len(),
            None => find_contract(cs@, id@, 0) is None,
        },
{
    let mut i: usize = 0;
    while i < cs.len()
        invariant
            i <= cs.len(),
            find_contract(cs@, id@, 0) == find_contract(cs@, id@, i as int),
        decreases cs.len() - i,
    {
        if text_eq(cs[i].id.as_str(), id) {
            return Some(i);
        }
        i = i + 1;
    }
    None
}

fn find_representation_exec(rs: &Vec<GoldenRepresentationV1>, id: &str) -> (r: Option<usize>)
    ensures
        match r {
            Some(k) => find_representation(rs@, id@, 0) == Some(k as int) && k < rs.len(),
            None => find_representation(rs@, id@, 0) is None,
        },
{
    let mut i: usize = 0;
    while i < rs.len()
        invariant
            i <= rs.len(),
            find_representation(rs@, id@, 0) == find_representation(rs@, id@, i as int),
        decreases rs.len() - i,
    {
        if text_eq(rs[i].id.as_str(), id) {
            return Some(i);
        }
        i = i + 1;
    }
    None
}

pub open spec fn contracts_problem(g: GoldenV1, i: int) -> Option<Seq<char>>
    decreases g.contracts.len() - i,
{
    if i < 0 || i >= g.contracts.len() {
        None
    } else {
        let c = g.contracts@[i];
        if identifier_problem(c.id@, "contract.id"@) is Some {
            identifier_problem(c.id@, "contract.id"@)
        } else if vocabulary_problem(c.facets@, Vocabulary::Facets, "contract facet"@, 0) is Some {
            vocabulary_problem(c.facets@, Vocabulary::Facets, "contract facet"@, 0)
        } else if exists|j: int| 0 <= j < i && #[trigger] g.contracts@[j].id@ == c.id@ {
            Some("duplicate contract id: "@ + c.id@)
        } else {
            contracts_problem(g, i + 1)
        }
    }
}

fn repeats_contract_id(cs: &Vec<GoldenContractV1>, i: usize) -> (r: bool)
    requires
        i < cs.len(),
    ensures
        r == exists|j: int| 0 <= j < i && #[trigger] cs@[j].id@ == cs@[i as int].id@,
{
    let mut j: usize = 0;
    while j < i
        invariant
            j <= i,
            i < cs.len(),
            forall|k: int| 0 <= k < j ==> #[trigger] cs@[k].id@ != cs@[i as int].id@,
        decreases i - j,
    {
        if text_eq(cs[j].id.as_str(), cs[i].id.as_str()) {
            return true;
        }
        j = j + 1;
    }
    false
}

fn check_contracts(g: &GoldenV1) -> (r: Result<(), BenchmarkModelError>)
    ensures
        match contracts_problem(*g, 0) {
            None => r is Ok,
            Some(m) => r is Err && r->Err_0@ == m,
        },
{
    let mut i: usize = 0;
    while i < g.contracts.len()
        invariant
            i <= g.contracts.len(),
            contracts_problem(*g, 0) == contracts_problem(*g, i as int),
        decreases g.contracts.len() - i,
    {
        let c = &g.contracts[i];
        require_identifier(c.id.as_str(), "contract.id")?;
        check_vocabulary(&c.facets, Vocabulary::Facets, "contract facet")?;
        if repeats_contract_id(&g.contracts, i) {
            return Err(BenchmarkModelError::invalid(cat2("duplicate contract id: ", c.id.as_str())));
        }
        i = i + 1;
    }
    Ok(())
}

pub open spec fn representations_problem(g: GoldenV1, i: int) -> Option<Seq<char>>
    decreases g.representations.len() - i,
{
    if i < 0 || i >= g.representations.len() {
        None
    } else {
        let r = g.representations@[i];
        if identifier_problem(r.id@, "representation.id"@) is Some {
            identifier_problem(r.id@, "representation.id"@)
        } else if identifier_problem(r.locator@, "representation.locator"@) is Some {
            identifier_problem(r.locator@, "representation.locator"@)
        } else {
            match find_contract(g.contracts@, r.contract@, 0) {
                None => Some("unknown representation contract: "@ + r.contract@),
                Some(ci) => if !in_vocabulary(Vocabulary::RepresentationKinds, r.kind@) {
                    Some("unsupported representation kind: "@ + r.kind@)
                } else if vocabulary_problem(r.facets@, Vocabulary::Facets, "representation facet"@, 0) is Some {
                    vocabulary_problem(r.facets@, Vocabulary::Facets, "representation facet"@, 0)
                } else if first_outside(r.facets@, g.contracts@[ci].facets@, 0) is Some {
                    Some("representation facet "@ + first_outside(r.facets@, g.contracts@[ci].facets@, 0)->Some_0 + " is outside contract "@ + r.contract@)
                } else if exists|j: int| 0 <= j < i && #[trigger] g.representations@[j].id@ == r.id@ {
                    Some("duplicate representation id: "@ + r.id@)
                } else {
                    representations_problem(g, i + 1)
                },
            }
        }
    }
}

fn repeats_representation_id(rs: &Vec<GoldenRepresentationV1>, i: usize) -> (r: bool)
    requires
        i < rs.len(),
    ensures
        r == exists|j: int| 0 <= j < i && #[trigger] rs@[j].id@ == rs@[i as int].id@,
{
    let mut j: usize = 0;
    while j < i
        invariant
            j <= i,
            i < rs.len(),
            forall|k: int| 0 <= k < j ==> #[trigger] rs@[k].id@ != rs@[i as int].id@,
        decreases i - j,
    {
        if text_eq(rs[j].id.as_str(), rs[i].id.as_str()) {
            return true;
        }
        j = j + 1;
    }
    false
}

fn check_representations(g: &GoldenV1) -> (r: Result<(), BenchmarkModelError>)
    ensures
        match representations_problem(*g, 0) {
            None => r is Ok,
            Some(m) => r is Err && r->Err_0@ == m,
        },
{
    let mut i: usize = 0;
    while i < g.representations.len()
        invariant
            i <= g.representations.len(),
            representations_problem(*g, 0) == representations_problem(*g, i as int),
        decreases g.representations.len() - i,
    {
        let r = &g.representations[i];
        require_identifier(r.id.as_str(), "representation.id")?;
        require_identifier(r.locator.as_str(), "representation.locator")?;
        let ci = match find_contract_exec(&g.contracts, r.contract.as_str()) {
            Some(ci) => ci,
            None => {
                return Err(BenchmarkModelError::invalid(cat2("unknown representation contract: ", r.contract.as_str())));
            },
        };
        if !is_in_vocabulary(Vocabulary::RepresentationKinds, r.kind.as_str()) {
            return Err(BenchmarkModelError::invalid(cat2("unsupported representation kind: ", r.kind.as_str())));
        }
        check_vocabulary(&r.facets, Vocabulary::Facets, "representation facet")?;
        if let Some(k) = first_outside_exec(&r.facets, &g.contracts[ci].facets) {
            return Err(BenchmarkModelError::invalid(cat4("representation facet ", r.facets[k].as_str(), " is outside contract ", r.contract.as_str())));
        }
        if repeats_representation_id(&g.representations, i) {
            return Err(BenchmarkModelError::invalid(cat2("duplicate representation id: ", r.id.as_str())));
        }
        i = i + 1;
    }
    Ok(())
}

pub open spec fn clauses_problem(g: GoldenV1, i: int) -> Option<Seq<char>>
    decreases g.clauses.len() - i,
{
    if i < 0 || i >= g.clauses.len() {
        None
    } else {
        let c = g.clauses@[i];
        if identifier_problem(c.id@, "clause.id"@) is Some {
            identifier_problem(c.id@, "clause.id"@)
        } else if identifier_problem(c.statement@, "clause.statement"@) is Some {
            identifier_problem(c.statement@, "clause.statement"@)
        } else {
            match find_contract(g.contracts@, c.contract@, 0) {
                None => Some("unknown clause contract: "@ + c.contract@),
                Some(ci) => if !in_vocabulary(Vocabulary::Facets, c.facet@) || !contains_text(g.contracts@[ci].facets@, c.facet@) {
                    Some("invalid clause facet "@ + c.facet@ + " for contract "@ + c.contract@)
                } else if !in_vocabulary(Vocabulary::ClauseKinds, c.kind@) {
                    Some("unsupported clause kind: "@ + c.kind@)
                } else if exists|j: int| 0 <= j < i && #[trigger] g.clauses@[j].id@ == c.id@ {
                    Some("duplicate clause id: "@ + c.id@)
                } else {
                    clauses_problem(g, i + 1)
                },
            }
        }
    }
}

fn repeats_clause_id(cs: &Vec<GoldenClauseV1>, i: usize) -> (r: bool)
    requires
        i < cs.len(),
    ensures
        r == exists|j: int| 0 <= j < i && #[trigger] cs@[j].id@ == cs@[i as int].id@,
{
    let mut j: usize = 0;
    while j < i
        invariant
            j <= i,
            i < cs.len(),
            forall|k: int| 0 <= k < j ==> #[trigger] cs@[k].id@ != cs@[i as int].id@,
        decreases i - j,
    {
        if text_eq(cs[j].id.as_str(), cs[i].id.as_str()) {
            return true;
        }
        j = j + 1;
    }
    false
}

fn check_clauses(g: &GoldenV1) -> (r: Result<(), BenchmarkModelError>)
    ensures
        match clauses_problem(*g, 0) {
            None => r is Ok,
            Some(m) => r is Err && r->Err_0@ == m,
        },
{
    let mut i: usize = 0;
    while i < g.clauses.len()
        invariant
            i <= g.clauses.len(),
            clauses_problem(*g, 0) == clauses_problem(*g, i as int),
        decreases g.clauses.len() - i,
    {
        let c = &g.clauses[i];
        require_identifier(c.id.as_str(), "clause.id")?;
        require_identifier(c.statement.as_str(), "clause.statement")?;
        let ci = match find_contract_exec(&g.contracts, c.contract.as_str()) {
            Some(ci) => ci,
            None => {
                return Err(BenchmarkModelError::invalid(cat2("unknown clause contract: ", c.contract.as_str())));
            },
        };
        if !is_in_vocabulary(Vocabulary::Facets, c.facet.as_str()) || !has_text(&g.contracts[ci].facets, c.facet.as_str()) {
            return Err(BenchmarkModelError::invalid(cat4("invalid clause facet ", c.facet.as_str(), " for contract ", c.contract.as_str())));
        }
        if !is_in_vocabulary(Vocabulary::ClauseKinds, c.kind.as_str()) {
            return Err(BenchmarkModelError::invalid(cat2("unsupported clause kind: ", c.kind.as_str())));
        }
        if repeats_clause_id(&g.clauses, i) {
            return Err(BenchmarkModelError::invalid(cat2("duplicate clause id: ", c.id.as_str())));
        }
        i = i + 1;
    }
    Ok(())
}

pub open spec fn claims_problem(g: GoldenV1, i: int) -> Option<Seq<char>>
    decreases g.authority_claims.len() - i,
{
    if i < 0 || i >= g.authority_claims.len() {
        None
    } else {
        let c = g.authority_claims@[i];
        match find_representation(g.representations@, c.representation@, 0) {
            None => Some("unknown authority representation: "@ + c.representation@),
            Some(ri) => if g.representations@[ri].contract@ != c.contract@ || find_contract(g.contracts@, c.contract@, 0) is None {
                Some("authority contract mismatch for representation "@ + c.representation@)
            } else if !in_vocabulary(Vocabulary::Facets, c.facet@) || !contains_text(g.representations@[ri].facets@, c.facet@) {
                Some("invalid authority facet: "@ + c.facet@)
            } else if !in_vocabulary(Vocabulary::AuthorityBases, c.basis@) {
                Some("unsupported authority basis: "@ + c.basis@)
            } else {
                claims_problem(g, i + 1)
            },
        }
    }
}

fn check_claims(g: &GoldenV1) -> (r: Result<(), BenchmarkModelError>)
    ensures
        match claims_problem(*g, 0) {
            None => r is Ok,
            Some(m) => r is Err && r->Err_0@ == m,
        },
{
    let mut i: usize = 0;
    while i < g.authority_claims.len()
        invariant
            i <= g.authority_claims.len(),
            claims_problem(*g, 0) == claims_problem(*g, i as int),
        decreases g.authority_claims.len() - i,
    {
        let c = &g.authority_claims[i];
        let ri = match find_representation_exec(&g.representations, c.representation.as_str()) {
            Some(ri) => ri,
            None => {
                return Err(BenchmarkModelError::invalid(cat2("unknown authority representation: ", c.representation.as_str())));
            },
        };
        let rep = &g.representations[ri];
        if !text_eq(rep.contract.as_str(), c.contract.as_str()) || find_contract_exec(&g.contracts, c.contract.as_str()).is_none() {
            return Err(BenchmarkModelError::invalid(cat2("authority contract mismatch for representation ", c.representation.as_str())));
        }
        if !is_in_vocabulary(Vocabulary::Facets, c.facet.as_str()) || !has_text(&rep.facets, c.facet.as_str()) {
            return Err(BenchmarkModelError::invalid(cat2("invalid authority facet: ", c.facet.as_str())));
        }
        if !is_in_vocabulary(Vocabulary::AuthorityBases, c.basis.as_str()) {
            return Err(BenchmarkModelError::invalid(cat2("unsupported authority basis: ", c.basis.as_str())));
        }
        i = i + 1;
    }
    Ok(())
}

/// Why a node reference does not resolve, if it does not.
pub open spec fn node_problem(g: GoldenV1, n: GraphNodeRefV1) -> Option<Seq<char>> {
    if n.kind@ == "contract"@ && find_contract(g.contracts@, n.id@, 0) is Some {
        None
    } else if n.kind@ == "representation"@ && find_representation(g.representations@, n.id@, 0) is Some {
        None
    } else if n.kind@ == "contract"@ || n.kind@ == "representation"@ {
        Some("unknown "@ + n.kind@ + " node: "@ + n.id@)
    } else {
        Some("unsupported node kind: "@ + n.kind@)
    }
}

fn check_node(g: &GoldenV1, n: &GraphNodeRefV1) -> (r: Result<(), BenchmarkModelError>)
    ensures
        match node_problem(*g, *n) {
            None => r is Ok,
            Some(m) => r is Err && r->Err_0@ == m,
        },
{
    let is_contract = text_eq(n.kind.as_str(), "contract");
    let is_representation = text_eq(n.kind.as_str(), "representation");
    if is_contract && find_contract_exec(&g.contracts, n.id.as_str()).is_some() {
        return Ok(());
    }
    if is_representation && find_representation_exec(&g.representations, n.id.as_str()).is_some() {
        return Ok(());
    }
    if is_contract || is_representation {
        return Err(BenchmarkModelError::invalid(cat4("unknown ", n.kind.as_str(), " node: ", n.id.as_str())));
    }
    Err(BenchmarkModelError::invalid(cat2("unsupported node kind: ", n.kind.as_str())))
}

pub open spec fn relationships_problem(g: GoldenV1, i: int) -> Option<Seq<char>>
    decreases g.relationships.len() - i,
{
    if i < 0 || i >= g.relationships.len() {
        None
    } else {
        let r = g.relationships@[i];
        if node_problem(g, r.from) is Some {
            node_problem(g, r.from)
        } else if node_problem(g, r.to) is Some {
            node_problem(g, r.to)
        } else if !in_vocabulary(Vocabulary::RelationKinds, r.kind@) {
            Some("unsupported relationship kind: "@ + r.kind@)
        } else {
            relationships_problem(g, i + 1)
        }
    }
}

fn check_relationships(g: &GoldenV1) -> (r: Result<(), BenchmarkModelError>)
    ensures
        match relationships_problem(*g, 0) {
            None => r is Ok,
            Some(m) => r is Err && r->Err_0@ == m,
        },
{
    let mut i: usize = 0;
    while i < g.relationships.len()
        invariant
            i <= g.relationships.len(),
            relationships_problem(*g, 0) == relationships_problem(*g, i as int),
        decreases g.relationships.len() - i,
    {
        let r = &g.relationships[i];
        check_node(g, &r.from)?;
        check_node(g, &r.to)?;
        if !is_in_vocabulary(Vocabulary::RelationKinds, r.kind.as_str()) {
            return Err(BenchmarkModelError::invalid(cat2("unsupported relationship kind: ", r.kind.as_str())));
        }
        i = i + 1;
    }
    Ok(())
}

pub open spec fn lifecycle_problem(g: GoldenV1, i: int) -> Option<Seq<char>>
    decreases g.lifecycle.len() - i,
{
    if i < 0 || i >= g.lifecycle.len() {
        None
    } else {
        let l = g.lifecycle@[i];
        if node_problem(g, l.subject) is Some {
            node_problem(g, l.subject)
        } else if identifier_problem(l.status@, "lifecycle.status"@) is Some {
            identifier_problem(l.status@, "lifecycle.status"@)
        } else {
            lifecycle_problem(g, i + 1)
        }
    }
}

fn check_lifecycle(g: &GoldenV1) -> (r: Result<(), BenchmarkModelError>)
    ensures
        match lifecycle_problem(*g, 0) {
            None => r is Ok,
            Some(m) => r is Err && r->Err_0@ == m,
        },
{
    let mut i: usize = 0;
    while i < g.lifecycle.len()
        invariant
            i <= g.lifecycle.len(),
            lifecycle_problem(*g, 0) == lifecycle_problem(*g, i as int),
        decreases g.lifecycle.len() - i,
    {
        let l = &g.lifecycle[i];
        check_node(g, &l.subject)?;
        require_identifier(l.status.as_str(), "lifecycle.status")?;
        i = i + 1;
    }
    Ok(())
}

pub open spec fn finding_clause(f: GoldenFindingV1) -> Seq<char> {
    match f {
        GoldenFindingV1::ContestedClause { clause } => clause@,
    }
}

pub open spec fn has_clause(g: GoldenV1, id: Seq<char>) -> bool {
    exists|k: int| 0 <= k < g.clauses.len() && #[trigger] g.clauses@[k].id@ == id
}

pub open spec fn findings_problem(g: GoldenV1, i: int) -> Option<Seq<char>>
    decreases g.expected_findings.len() - i,
{
    if i < 0 || i >= g.expected_findings.len() {
        None
    } else if !has_clause(g, finding_clause(g.expected_findings@[i])) {
        Some("finding references unknown clause: "@ + finding_clause(g.expected_findings@[i]))
    } else {
        findings_problem(g, i + 1)
    }
}

fn has_clause_exec(g: &GoldenV1, id: &str) -> (r: bool)
    ensures
        r == has_clause(*g, id@),
{
    let mut j: usize = 0;
    while j < g.clauses.len()
        invariant
            j <= g.clauses.len(),
            forall|k: int| 0 <= k < j ==> #[trigger] g.clauses@[k].id@ != id@,
        decreases g.clauses.len() - j,
    {
        if text_eq(g.clauses[j].id.as_str(), id) {
            return true;
        }
        j = j + 1;
    }
    false
}

fn check_findings(g: &GoldenV1) -> (r: Result<(), BenchmarkModelError>)
    ensures
        match findings_problem(*g, 0) {
            None => r is Ok,
            Some(m) => r is Err && r->Err_0@ == m,
        },
{
    let mut i: usize = 0;
    while i < g.expected_findings.len()
        invariant
            i <= g.expected_findings.len(),
            findings_problem(*g, 0) == findings_problem(*g, i as int),
        decreases g.expected_findings.len() - i,
    {
        match &g.expected_findings[i] {
            GoldenFindingV1::ContestedClause { clause } => {
                if !has_clause_exec(g, clause.as_str()) {
                    return Err(BenchmarkModelError::invalid(cat2("finding references unknown clause: ", clause.as_str())));
                }
            },
        }
        i = i + 1;
    }
    Ok(())
}

pub open spec fn non_contracts_problem(g: GoldenV1, i: int) -> Option<Seq<char>>
    decreases g.non_contracts.len() - i,
{
    if i < 0 || i >= g.non_contracts.len() {
        None
    } else {
        let n = g.non_contracts@[i];
        if identifier_problem(n.locator@, "non_contract.locator"@) is Some {
            identifier_problem(n.locator@, "non_contract.locator"@)
        } else if identifier_problem(n.reason@, "non_contract.reason"@) is Some {
            identifier_problem(n.reason@, "non_contract.reason"@)
        } else {
            non_contracts_problem(g, i + 1)
        }
    }
}

fn check_non_contracts(g: &GoldenV1) -> (r: Result<(), BenchmarkModelError>)
    ensures
        match non_contracts_problem(*g, 0) {
            None => r is Ok,
            Some(m) => r is Err && r->Err_0@ == m,
        },
{
    let mut i: usize = 0;
    while i < g.non_contracts.len()
        invariant
            i <= g.non_contracts.len(),
            non_contracts_problem(*g, 0) == non_contracts_problem(*g, i as int),
        decreases g.non_contracts.len() - i,
    {
        let n = &g.non_contracts[i];
        require_identifier(n.locator.as_str(), "non_contract.locator")?;
        require_identifier(n.reason.as_str(), "non_contract.reason")?;
        i = i + 1;
    }
    Ok(())
}

/// The first rule of the golden-truth format that `g` breaks, if any.
pub open spec fn golden_problem(g: GoldenV1) -> Option<Seq<char>> {
    if g.schema@ != golden_schema() {
        Some("unsupported golden schema: "@ + g.schema@)
    } else if g.contracts.len() == 0 {
        Some("golden truth must contain at least one logical contract"@)
    } else if contracts_problem(g, 0) is Some {
        contracts_problem(g, 0)
    } else if representations_problem(g, 0) is Some {
        representations_problem(g, 0)
    } else if clauses_problem(g, 0) is Some {
        clauses_problem(g, 0)
    } else if claims_problem(g, 0) is Some {
        claims_problem(g, 0)
    } else if relationships_problem(g, 0) is Some {
        relationships_problem(g, 0)
    } else if lifecycle_problem(g, 0) is Some {
        lifecycle_problem(g, 0)
    } else if findings_problem(g, 0) is Some {
        findings_problem(g, 0)
    } else {
        non_contracts_problem(g, 0)
    }
}

/// Checks golden truth: known vocabularies, unique ids, and references that resolve.
pub fn validate_golden(value: &GoldenV1) -> (r: Result<(), BenchmarkModelError>)
    ensures
        match golden_problem(*value) {
            None => r is Ok,
            Some(m) => r is Err && r->Err_0@ == m,
        },
{
    if !text_eq(value.schema.as_str(), "chirograph-benchmark-golden-v1") {
        return Err(BenchmarkModelError::invalid(cat2("unsupported golden schema: ", value.schema.as_str())));
    }
    if value.contracts.len() == 0 {
        return Err(BenchmarkModelError::invalid(owned("golden truth must contain at least one logical contract")));
    }
    check_contracts(value)?;
    check_representations(value)?;
    check_clauses(value)?;
    check_claims(value)?;
    check_relationships(value)?;
    check_lifecycle(value)?;
    check_findings(value)?;
    check_non_contracts(value)?;
    Ok(())
}

/// One benchmark case as found in the corpus; paths are relative to the corpus root.
#[derive(Debug, Clone)]
pub struct BenchmarkCase {
    pub id: String,
    pub repository: String,
    pub scenario: String,
    pub root: String,
    pub fixture_dir: String,
    pub specimen_path: String,
    pub golden_path: String,
    pub specimen: SpecimenV1,
    pub golden: GoldenV1,
}

} // verus!
