//! Contract-relevant facts of Python source: classes, functions, annotated
//! assignments, decorators, calls, returns, raises, conditionals, comments,
//! docstrings and assertions, each with its exact span and text.

use vstd::prelude::*;
use crate::adapters::syntax::{
    end_of_subtree, field_text, field_text_exec, find_child_by_field, find_first_named_child, find_parent, first_from,
    first_named_child, child_by_field, lemma_first_from_range, lemma_last_before_range, node_text, one_based, opt_view,
    parent_of, parse_python_syntax, python_syntax, subtree_end, syntax_view, text_of, to_one_based, ParseFailure,
    SyntaxEntry,
};
use crate::order::{
    key_of, lemma_stable_sort_map, lemma_stable_sort_ordered, lemma_stable_sort_permutes, num_key, ordered_by, push_num_key, push_rank_key, rank_key, sort_by_key, stable_sort_by,
    SortKey,
};
use crate::json::{decimal, push_decimal};
use crate::model::{clone_revision, Revision, RevisionView};
use crate::text::{owned, push_str, text_eq};

verus! {

#[derive(Debug, Clone, Copy, PartialEq, Eq)]
pub enum PythonFactKind {
    Module,
    ClassDefinition,
    FunctionDefinition,
    AnnotatedAssignment,
    Decorator,
    Call,
    Return,
    Raise,
    Conditional,
    Comment,
    Docstring,
    TestAssertion,
}

/// Byte range and one-based line and column range of a fact.
#[derive(Debug, Clone, Copy, PartialEq, Eq)]
pub struct SourceSpan {
    pub start_byte: usize,
    pub end_byte: usize,
    pub start_line: usize,
    pub start_column: usize,
    pub end_line: usize,
    pub end_column: usize,
}

#[derive(Debug, Clone, PartialEq, Eq)]
pub struct PythonFact {
    pub kind: PythonFactKind,
    pub path: String,
    pub span: SourceSpan,
    pub name: Option<String>,
    pub annotation: Option<String>,
    pub condition: Option<String>,
    pub text: String,
}

pub struct PythonFactView {
    pub kind: PythonFactKind,
    pub path: Seq<char>,
    pub span: SourceSpan,
    pub name: Option<Seq<char>>,
    pub annotation: Option<Seq<char>>,
    pub condition: Option<Seq<char>>,
    pub text: Seq<char>,
}

impl View for PythonFact {
    type V = PythonFactView;

    open spec fn view(&self) -> PythonFactView {
        PythonFactView {
            kind: self.kind,
            path: self.path@,
            span: self.span,
            name: opt_view(self.name),
            annotation: opt_view(self.annotation),
            condition: opt_view(self.condition),
            text: self.text@,
        }
    }
}

pub open spec fn python_fact_views(s: Seq<PythonFact>) -> Seq<PythonFactView> {
    s.map_values(|f: PythonFact| f@)
}

#[derive(Debug, Clone, PartialEq, Eq)]
pub enum PythonAdapterError {
    Language(String),
    ParseFailed,
    SyntaxError,
}

pub enum PythonErrorView {
    Language(Seq<char>),
    ParseFailed,
    SyntaxError,
}

impl View for PythonAdapterError {
    type V = PythonErrorView;

    open spec fn view(&self) -> PythonErrorView {
        match self {
            PythonAdapterError::Language(m) => PythonErrorView::Language(m@),
            PythonAdapterError::ParseFailed => PythonErrorView::ParseFailed,
            PythonAdapterError::SyntaxError => PythonErrorView::SyntaxError,
        }
    }
}

impl PythonAdapterError {
    /// The error as text.
    pub fn message(&self) -> (r: String)
        ensures
            r@ == match self@ {
                PythonErrorView::Language(m) => "cannot load Python grammar: "@ + m,
                PythonErrorView::ParseFailed => "Tree-sitter did not produce a Python syntax tree"@,
                PythonErrorView::SyntaxError => "Python source contains syntax errors"@,
            },
    {
        match self {
            PythonAdapterError::Language(m) => {
                let mut r = owned("cannot load Python grammar: ");
                push_str(&mut r, m.as_str());
                r
            },
            PythonAdapterError::ParseFailed => owned("Tree-sitter did not produce a Python syntax tree"),
            PythonAdapterError::SyntaxError => owned("Python source contains syntax errors"),
        }
    }
}

/// Where a kind of fact sorts among facts that start at the same byte.
pub open spec fn kind_order(k: PythonFactKind) -> u32 {
    match k {
        PythonFactKind::Module => 0,
        PythonFactKind::ClassDefinition => 1,
        PythonFactKind::FunctionDefinition => 2,
        PythonFactKind::AnnotatedAssignment => 3,
        PythonFactKind::Decorator => 4,
        PythonFactKind::Call => 5,
        PythonFactKind::Return => 6,
        PythonFactKind::Raise => 7,
        PythonFactKind::Conditional => 8,
        PythonFactKind::Comment => 9,
        PythonFactKind::Docstring => 10,
        PythonFactKind::TestAssertion => 11,
    }
}

pub fn fact_kind_order(k: PythonFactKind) -> (r: u32)
    ensures
        r == kind_order(k),
{
    match k {
        PythonFactKind::Module => 0,
        PythonFactKind::ClassDefinition => 1,
        PythonFactKind::FunctionDefinition => 2,
        PythonFactKind::AnnotatedAssignment => 3,
        PythonFactKind::Decorator => 4,
        PythonFactKind::Call => 5,
        PythonFactKind::Return => 6,
        PythonFactKind::Raise => 7,
        PythonFactKind::Conditional => 8,
        PythonFactKind::Comment => 9,
        PythonFactKind::Docstring => 10,
        PythonFactKind::TestAssertion => 11,
    }
}

/// The words that name a kind of fact.
pub open spec fn kind_name(k: PythonFactKind) -> Seq<char> {
    match k {
        PythonFactKind::Module => "module"@,
        PythonFactKind::ClassDefinition => "class definition"@,
        PythonFactKind::FunctionDefinition => "function definition"@,
        PythonFactKind::AnnotatedAssignment => "annotated assignment"@,
        PythonFactKind::Decorator => "decorator"@,
        PythonFactKind::Call => "call"@,
        PythonFactKind::Return => "return"@,
        PythonFactKind::Raise => "raise"@,
        PythonFactKind::Conditional => "conditional"@,
        PythonFactKind::Comment => "comment"@,
        PythonFactKind::Docstring => "docstring"@,
        PythonFactKind::TestAssertion => "test assertion"@,
    }
}

pub fn fact_kind_name(k: PythonFactKind) -> (r: &'static str)
    ensures
        r@ == kind_name(k),
{
    match k {
        PythonFactKind::Module => "module",
        PythonFactKind::ClassDefinition => "class definition",
        PythonFactKind::FunctionDefinition => "function definition",
        PythonFactKind::AnnotatedAssignment => "annotated assignment",
        PythonFactKind::Decorator => "decorator",
        PythonFactKind::Call => "call",
        PythonFactKind::Return => "return",
        PythonFactKind::Raise => "raise",
        PythonFactKind::Conditional => "conditional",
        PythonFactKind::Comment => "comment",
        PythonFactKind::Docstring => "docstring",
        PythonFactKind::TestAssertion => "test assertion",
    }
}

// ---- what each node contributes ----

pub open spec fn span_of(e: SyntaxEntry) -> SourceSpan {
    SourceSpan {
        start_byte: e.start_byte,
        end_byte: e.end_byte,
        start_line: one_based(e.start_row),
        start_column: one_based(e.start_column),
        end_line: one_based(e.end_row),
        end_column: one_based(e.end_column),
    }
}

/// A decorator's name: the called function of a decorator call, else the
/// decorator expression itself.
pub open spec fn decorator_name(es: Seq<SyntaxEntry>, source: Seq<char>, i: int) -> Option<Seq<char>> {
    match first_named_child(es, i) {
        None => None,
        Some(x) => if es[x].kind@ == "call"@ {
            field_text(es, source, x, "function"@)
        } else {
            Some(node_text(source, es[x]))
        },
    }
}

pub open spec fn doc_candidate(d: usize) -> spec_fn(SyntaxEntry) -> bool {
    |e: SyntaxEntry| e.depth == d + 1 && e.named && e.kind@ != "comment"@
}

/// A module, or the body block of a class or function.
pub open spec fn documentable_scope(es: Seq<SyntaxEntry>, p: int) -> bool {
    ||| es[p].kind@ == "module"@
    ||| es[p].kind@ == "block"@ && (parent_of(es, p) matches Some(o) && (es[o].kind@ == "class_definition"@
        || es[o].kind@ == "function_definition"@))
}

/// An expression statement is a docstring when it holds a string and is the
/// first statement (comments aside) of a documentable scope.
pub open spec fn is_docstring(es: Seq<SyntaxEntry>, i: int) -> bool {
    &&& first_named_child(es, i) matches Some(v) && (es[v].kind@ == "string"@ || es[v].kind@
        == "concatenated_string"@)
    &&& parent_of(es, i) matches Some(p) && documentable_scope(es, p) && (first_from(
        es,
        p + 1,
        subtree_end(es, p),
        doc_candidate(es[p].depth),
    ) matches Some(f) && es[f].kind@ == es[i].kind@ && es[f].start_byte == es[i].start_byte && es[f].end_byte
        == es[i].end_byte)
}

pub open spec fn fact_of(
    kind: PythonFactKind,
    path: Seq<char>,
    source: Seq<char>,
    e: SyntaxEntry,
    name: Option<Seq<char>>,
    annotation: Option<Seq<char>>,
    condition: Option<Seq<char>>,
) -> PythonFactView {
    PythonFactView { kind, path, span: span_of(e), name, annotation, condition, text: node_text(source, e) }
}

/// The fact that node `i` contributes, if any.
pub open spec fn fact_at(es: Seq<SyntaxEntry>, source: Seq<char>, path: Seq<char>, i: int) -> Option<PythonFactView> {
    let e = es[i];
    let k = e.kind@;
    if k == "class_definition"@ {
        Some(fact_of(PythonFactKind::ClassDefinition, path, source, e, field_text(es, source, i, "name"@), None, None))
    } else if k == "function_definition"@ {
        Some(
            fact_of(
                PythonFactKind::FunctionDefinition,
                path,
                source,
                e,
                field_text(es, source, i, "name"@),
                field_text(es, source, i, "return_type"@),
                None,
            ),
        )
    } else if k == "assignment"@ && child_by_field(es, i, "type"@) is Some {
        Some(
            fact_of(
                PythonFactKind::AnnotatedAssignment,
                path,
                source,
                e,
                field_text(es, source, i, "left"@),
                field_text(es, source, i, "type"@),
                None,
            ),
        )
    } else if k == "decorator"@ {
        Some(fact_of(PythonFactKind::Decorator, path, source, e, decorator_name(es, source, i), None, None))
    } else if k == "call"@ {
        Some(fact_of(PythonFactKind::Call, path, source, e, field_text(es, source, i, "function"@), None, None))
    } else if k == "return_statement"@ {
        Some(fact_of(PythonFactKind::Return, path, source, e, None, None, None))
    } else if k == "raise_statement"@ {
        Some(fact_of(PythonFactKind::Raise, path, source, e, None, None, None))
    } else if k == "if_statement"@ || k == "elif_clause"@ {
        Some(fact_of(PythonFactKind::Conditional, path, source, e, None, None, field_text(es, source, i, "condition"@)))
    } else if k == "comment"@ {
        Some(fact_of(PythonFactKind::Comment, path, source, e, None, None, None))
    } else if k == "assert_statement"@ {
        Some(fact_of(PythonFactKind::TestAssertion, path, source, e, None, None, None))
    } else if k == "expression_statement"@ && is_docstring(es, i) {
        Some(fact_of(PythonFactKind::Docstring, path, source, e, None, None, None))
    } else {
        None
    }
}

/// The facts of the first `n` nodes, in document order.
pub open spec fn facts_upto(es: Seq<SyntaxEntry>, source: Seq<char>, path: Seq<char>, n: int) -> Seq<PythonFactView>
    decreases n,
{
    if n <= 0 {
        Seq::empty()
    } else {
        let rest = facts_upto(es, source, path, n - 1);
        match fact_at(es, source, path, n - 1) {
            Some(f) => rest.push(f),
            None => rest,
        }
    }
}

/// The fact that stands for the whole module.
pub open spec fn module_fact(root: SyntaxEntry, source: Seq<char>, path: Seq<char>) -> PythonFactView {
    PythonFactView {
        kind: PythonFactKind::Module,
        path,
        span: span_of(root),
        name: Some(path),
        annotation: None,
        condition: None,
        text: source,
    }
}

/// Facts order by start byte, then kind, then end byte.
pub open spec fn fact_key(f: PythonFactView) -> Seq<u32> {
    num_key(f.span.start_byte as u64) + rank_key(kind_order(f.kind)) + num_key(f.span.end_byte as u64)
}

pub open spec fn fact_key_fn() -> spec_fn(PythonFactView) -> Seq<u32> {
    |f: PythonFactView| fact_key(f)
}

/// The facts of a Python source, given what the parser made of it.
pub open spec fn python_facts(
    path: Seq<char>,
    source: Seq<char>,
    syntax: Result<Seq<SyntaxEntry>, ParseFailure>,
) -> Result<Seq<PythonFactView>, PythonErrorView> {
    match syntax {
        Err(ParseFailure::Language(m)) => Err(PythonErrorView::Language(m@)),
        Err(ParseFailure::NoTree) => Err(PythonErrorView::ParseFailed),
        Ok(es) => if es.len() == 0 {
            Err(PythonErrorView::ParseFailed)
        } else if es[0].has_error {
            Err(PythonErrorView::SyntaxError)
        } else {
            Ok(
                stable_sort_by(
                    seq![module_fact(es[0], source, path)] + facts_upto(es, source, path, es.len() as int),
                    fact_key_fn(),
                ),
            )
        },
    }
}

/// The facts of a Python source come out ordered by start byte, then kind,
/// then end byte; they are the module fact and the facts of the nodes in
/// document order, rearranged.
pub proof fn law_python_facts_ordered(path: Seq<char>, source: Seq<char>, syntax: Result<Seq<SyntaxEntry>, ParseFailure>)
    requires
        syntax matches Ok(es) && es.len() > 0 && !es[0].has_error,
    ensures
        python_facts(path, source, syntax) matches Ok(fs) && ordered_by(fs, fact_key_fn()) && fs.to_multiset()
            == (seq![module_fact(syntax->Ok_0[0], source, path)] + facts_upto(
            syntax->Ok_0,
            source,
            path,
            syntax->Ok_0.len() as int,
        )).to_multiset(),
{
    let es = syntax->Ok_0;
    let all = seq![module_fact(es[0], source, path)] + facts_upto(es, source, path, es.len() as int);
    lemma_stable_sort_ordered(all, fact_key_fn());
    lemma_stable_sort_permutes(all, fact_key_fn());
}

/// The facts of the first `n` nodes are the facts those nodes contribute.
proof fn lemma_facts_upto_members(es: Seq<SyntaxEntry>, source: Seq<char>, path: Seq<char>, n: int)
    requires
        0 <= n <= es.len(),
    ensures
        forall|f: PythonFactView| facts_upto(es, source, path, n).contains(f) <==> exists|j: int|
            0 <= j < n && #[trigger] fact_at(es, source, path, j) == Some(f),
    decreases n,
{
    if n > 0 {
        lemma_facts_upto_members(es, source, path, n - 1);
        let rest = facts_upto(es, source, path, n - 1);
        assert forall|f: PythonFactView| facts_upto(es, source, path, n).contains(f) <==> exists|j: int|
            0 <= j < n && #[trigger] fact_at(es, source, path, j) == Some(f) by {
            match fact_at(es, source, path, n - 1) {
                Some(g) => {
                    if rest.push(g).contains(f) && f != g {
                        let i = choose|i: int| 0 <= i < rest.push(g).len() && rest.push(g)[i] == f;
                        assert(rest[i] == f);
                    }
                    if rest.contains(f) {
                        let i = choose|i: int| 0 <= i < rest.len() && rest[i] == f;
                        assert(rest.push(g)[i] == f);
                    }
                    assert(rest.push(g)[rest.len() as int] == g);
                },
                None => {},
            }
        }
    }
}

/// A conditional node: an `if` statement or an `elif` branch.
pub open spec fn is_conditional_node(e: SyntaxEntry) -> bool {
    e.kind@ == "if_statement"@ || e.kind@ == "elif_clause"@
}

/// The conditional fact of node `i`: its span and text, and the text of its
/// `condition` field.
pub open spec fn conditional_fact(es: Seq<SyntaxEntry>, source: Seq<char>, path: Seq<char>, i: int) -> PythonFactView {
    PythonFactView {
        kind: PythonFactKind::Conditional,
        path,
        span: span_of(es[i]),
        name: None,
        annotation: None,
        condition: field_text(es, source, i, "condition"@),
        text: node_text(source, es[i]),
    }
}

/// Every `if` statement and every `elif` branch of a parsed Python source
/// becomes a conditional fact whose condition is the text of the node's
/// `condition` field, and every conditional fact comes from such a node.
pub proof fn law_python_conditionals_are_facts(path: Seq<char>, source: Seq<char>, es: Seq<SyntaxEntry>)
    requires
        es.len() > 0,
        !es[0].has_error,
    ensures
        python_facts(path, source, Ok(es)) is Ok,
        forall|j: int| 0 <= j < es.len() && is_conditional_node(es[j])
            ==> python_facts(path, source, Ok(es))->Ok_0.contains(#[trigger] conditional_fact(es, source, path, j)),
        forall|f: PythonFactView| #[trigger] python_facts(path, source, Ok(es))->Ok_0.contains(f) && f.kind
            == PythonFactKind::Conditional ==> exists|j: int|
            0 <= j < es.len() && is_conditional_node(es[j]) && f == conditional_fact(es, source, path, j),
{
    broadcast use vstd::seq_lib::group_to_multiset_ensures;

    let ups = facts_upto(es, source, path, es.len() as int);
    let all = seq![module_fact(es[0], source, path)] + ups;
    let fs = python_facts(path, source, Ok(es))->Ok_0;
    lemma_facts_upto_members(es, source, path, es.len() as int);
    lemma_stable_sort_permutes(all, fact_key_fn());
    assert forall|f: PythonFactView| fs.contains(f) <==> all.contains(f) by {
        assert(fs.contains(f) <==> fs.to_multiset().count(f) > 0);
        assert(all.contains(f) <==> all.to_multiset().count(f) > 0);
    }
    assert forall|f: PythonFactView| ups.contains(f) implies all.contains(f) by {
        let i = choose|i: int| 0 <= i < ups.len() && ups[i] == f;
        assert(all[i + 1] == f);
    }
    reveal_strlit("class_definition");
    reveal_strlit("function_definition");
    reveal_strlit("assignment");
    reveal_strlit("decorator");
    reveal_strlit("call");
    reveal_strlit("return_statement");
    reveal_strlit("raise_statement");
    reveal_strlit("if_statement");
    reveal_strlit("elif_clause");
    assert forall|j: int| 0 <= j < es.len() && is_conditional_node(es[j])
        implies fs.contains(#[trigger] conditional_fact(es, source, path, j)) by {
        let k = es[j].kind@;
        assert(k.len() == 12 || k.len() == 11);
        assert(k != "class_definition"@ && k != "function_definition"@ && k != "assignment"@ && k != "decorator"@);
        assert(k != "call"@ && k != "return_statement"@ && k != "raise_statement"@);
        assert(fact_at(es, source, path, j) == Some(conditional_fact(es, source, path, j)));
    }
    assert forall|f: PythonFactView| #[trigger] fs.contains(f) && f.kind == PythonFactKind::Conditional implies exists|j: int|
        0 <= j < es.len() && is_conditional_node(es[j]) && f == conditional_fact(es, source, path, j) by {
        let i = choose|i: int| 0 <= i < all.len() && all[i] == f;
        if i == 0 {
            assert(f == module_fact(es[0], source, path));
        } else {
            assert(ups[i - 1] == f);
            assert(ups.contains(f));
            let j = choose|j: int| 0 <= j < es.len() && #[trigger] fact_at(es, source, path, j) == Some(f);
            assert(f == conditional_fact(es, source, path, j));
        }
    }
}

impl SortKey for PythonFact {
    open spec fn sort_key(&self) -> Seq<u32> {
        fact_key(self@)
    }

    fn sort_key_exec(&self) -> (k: Vec<u32>) {
        let mut k: Vec<u32> = Vec::new();
        push_num_key(&mut k, self.span.start_byte as u64);
        push_rank_key(&mut k, fact_kind_order(self.kind));
        push_num_key(&mut k, self.span.end_byte as u64);
        assert(k@ =~= fact_key(self@));
        k
    }
}

// ---- executable ----

fn span_exec(e: &SyntaxEntry) -> (r: SourceSpan)
    ensures
        r == span_of(*e),
{
    SourceSpan {
        start_byte: e.start_byte,
        end_byte: e.end_byte,
        start_line: to_one_based(e.start_row),
        start_column: to_one_based(e.start_column),
        end_line: to_one_based(e.end_row),
        end_column: to_one_based(e.end_column),
    }
}

fn decorator_name_exec(es: &Vec<SyntaxEntry>, source: &str, i: usize) -> (r: Option<String>)
    requires
        i < es.len(),
    ensures
        opt_view(r) == decorator_name(es@, source@, i as int),
{
    proof {
        lemma_first_from_range(es@, i + 1, subtree_end(es@, i as int), crate::adapters::syntax::named_child(es@[i as int].depth));
    }
    match find_first_named_child(es, i) {
        None => None,
        Some(x) => {
            if text_eq(es[x].kind.as_str(), "call") {
                field_text_exec(es, source, x, "function")
            } else {
                Some(text_of(source, &es[x]))
            }
        },
    }
}

#[verifier::loop_isolation(false)]
fn is_docstring_exec(es: &Vec<SyntaxEntry>, i: usize) -> (r: bool)
    requires
        i < es.len(),
    ensures
        r == is_docstring(es@, i as int),
{
    proof {
        lemma_first_from_range(es@, i + 1, subtree_end(es@, i as int), crate::adapters::syntax::named_child(es@[i as int].depth));
    }
    let v = match find_first_named_child(es, i) {
        None => {
            return false;
        },
        Some(v) => v,
    };
    if !(text_eq(es[v].kind.as_str(), "string") || text_eq(es[v].kind.as_str(), "concatenated_string")) {
        return false;
    }
    let p = match find_parent(es, i) {
        None => {
            return false;
        },
        Some(p) => p,
    };
    proof {
        lemma_last_before_range(es@, i as int, crate::adapters::syntax::one_up(es@[i as int].depth));
    }
    let scope = if text_eq(es[p].kind.as_str(), "module") {
        true
    } else if text_eq(es[p].kind.as_str(), "block") {
        proof {
            lemma_last_before_range(es@, p as int, crate::adapters::syntax::one_up(es@[p as int].depth));
        }
        match find_parent(es, p) {
            Some(o) => text_eq(es[o].kind.as_str(), "class_definition") || text_eq(es[o].kind.as_str(), "function_definition"),
            None => false,
        }
    } else {
        false
    };
    if !scope {
        return false;
    }
    let end = end_of_subtree(es, p);
    let d = es[p].depth;
    let ghost q = doc_candidate(d);
    let mut j: usize = p + 1;
    while j < end
        invariant
            p < j <= end <= es@.len(),
            i < es@.len(),
            end == subtree_end(es@, p as int),
            d == es@[p as int].depth,
            q == doc_candidate(d),
            first_from(es@, p + 1, end as int, q) == first_from(es@, j as int, end as int, q),
        decreases end - j,
    {
        if es[j].depth == d + 1 && es[j].named && !text_eq(es[j].kind.as_str(), "comment") {
            return text_eq(es[j].kind.as_str(), es[i].kind.as_str()) && es[j].start_byte == es[i].start_byte
                && es[j].end_byte == es[i].end_byte;
        }
        j = j + 1;
    }
    false
}

fn make_fact(
    kind: PythonFactKind,
    path: &str,
    source: &str,
    e: &SyntaxEntry,
    name: Option<String>,
    annotation: Option<String>,
    condition: Option<String>,
) -> (r: PythonFact)
    ensures
        r@ == fact_of(kind, path@, source@, *e, opt_view(name), opt_view(annotation), opt_view(condition)),
{
    PythonFact { kind, path: owned(path), span: span_exec(e), name, annotation, condition, text: text_of(source, e) }
}

fn fact_at_exec(es: &Vec<SyntaxEntry>, source: &str, path: &str, i: usize) -> (r: Option<PythonFact>)
    requires
        i < es.len(),
    ensures
        match fact_at(es@, source@, path@, i as int) {
            Some(f) => r matches Some(x) && x@ == f,
            None => r is None,
        },
{
    let e = &es[i];
    let k = e.kind.as_str();
    if text_eq(k, "class_definition") {
        Some(make_fact(PythonFactKind::ClassDefinition, path, source, e, field_text_exec(es, source, i, "name"), None, None))
    } else if text_eq(k, "function_definition") {
        let name = field_text_exec(es, source, i, "name");
        let annotation = field_text_exec(es, source, i, "return_type");
        Some(make_fact(PythonFactKind::FunctionDefinition, path, source, e, name, annotation, None))
    } else if text_eq(k, "assignment") && find_child_by_field(es, i, "type").is_some() {
        let name = field_text_exec(es, source, i, "left");
        let annotation = field_text_exec(es, source, i, "type");
        Some(make_fact(PythonFactKind::AnnotatedAssignment, path, source, e, name, annotation, None))
    } else if text_eq(k, "decorator") {
        Some(make_fact(PythonFactKind::Decorator, path, source, e, decorator_name_exec(es, source, i), None, None))
    } else if text_eq(k, "call") {
        Some(make_fact(PythonFactKind::Call, path, source, e, field_text_exec(es, source, i, "function"), None, None))
    } else if text_eq(k, "return_statement") {
        Some(make_fact(PythonFactKind::Return, path, source, e, None, None, None))
    } else if text_eq(k, "raise_statement") {
        Some(make_fact(PythonFactKind::Raise, path, source, e, None, None, None))
    } else if text_eq(k, "if_statement") || text_eq(k, "elif_clause") {
        let condition = field_text_exec(es, source, i, "condition");
        Some(make_fact(PythonFactKind::Conditional, path, source, e, None, None, condition))
    } else if text_eq(k, "comment") {
        Some(make_fact(PythonFactKind::Comment, path, source, e, None, None, None))
    } else if text_eq(k, "assert_statement") {
        Some(make_fact(PythonFactKind::TestAssertion, path, source, e, None, None, None))
    } else if text_eq(k, "expression_statement") && is_docstring_exec(es, i) {
        Some(make_fact(PythonFactKind::Docstring, path, source, e, None, None, None))
    } else {
        None
    }
}

/// The facts of a Python source from its parsed node list: the module fact
/// and one fact per contract-relevant node, ordered by start byte, kind and
/// end byte.
pub fn python_facts_from_syntax(path: &str, source: &str, syntax: Result<Vec<SyntaxEntry>, ParseFailure>) -> (r: Result<
    Vec<PythonFact>,
    PythonAdapterError,
>)
    ensures
        match python_facts(path@, source@, syntax_view(syntax)) {
            Ok(fs) => r matches Ok(v) && python_fact_views(v@) == fs,
            Err(e) => r matches Err(x) && x@ == e,
        },
{
    let es = match syntax {
        Err(ParseFailure::Language(m)) => {
            return Err(PythonAdapterError::Language(m));
        },
        Err(ParseFailure::NoTree) => {
            return Err(PythonAdapterError::ParseFailed);
        },
        Ok(es) => es,
    };
    if es.len() == 0 {
        return Err(PythonAdapterError::ParseFailed);
    }
    if es[0].has_error {
        return Err(PythonAdapterError::SyntaxError);
    }
    let mut facts: Vec<PythonFact> = Vec::new();
    facts.push(
        PythonFact {
            kind: PythonFactKind::Module,
            path: owned(path),
            span: span_exec(&es[0]),
            name: Some(owned(path)),
            annotation: None,
            condition: None,
            text: owned(source),
        },
    );
    let ghost head = seq![module_fact(es@[0], source@, path@)];
    assert(python_fact_views(facts@) =~= head + facts_upto(es@, source@, path@, 0));
    let mut i: usize = 0;
    while i < es.len()
        invariant
            i <= es@.len(),
            head == seq![module_fact(es@[0], source@, path@)],
            python_fact_views(facts@) == head + facts_upto(es@, source@, path@, i as int),
        decreases es.len() - i,
    {
        let ghost before = facts@;
        match fact_at_exec(&es, source, path, i) {
            Some(f) => {
                facts.push(f);
                assert(facts@ == before.push(f));
                assert(python_fact_views(facts@) =~= python_fact_views(before).push(f@));
                assert(facts_upto(es@, source@, path@, i + 1) == facts_upto(es@, source@, path@, i as int).push(f@));
                assert(python_fact_views(facts@) =~= head + facts_upto(es@, source@, path@, i + 1));
            },
            None => {
                assert(facts_upto(es@, source@, path@, i + 1) == facts_upto(es@, source@, path@, i as int));
            },
        }
        i = i + 1;
    }
    let sorted = sort_by_key(facts);
    proof {
        lemma_stable_sort_map(facts@, key_of::<PythonFact>(), |f: PythonFact| f@, fact_key_fn());
    }
    Ok(sorted)
}

/// Parses a Python source with Tree-sitter and lists its facts.
pub fn extract_python_facts(path: &str, source: &str) -> (r: Result<Vec<PythonFact>, PythonAdapterError>)
    ensures
        match python_facts(path@, source@, python_syntax(source@)) {
            Ok(fs) => r matches Ok(v) && python_fact_views(v@) == fs,
            Err(e) => r matches Err(x) && x@ == e,
        },
{
    let syntax = parse_python_syntax(source);
    python_facts_from_syntax(path, source, syntax)
}

// ---- observations ----

/// An observation of one fact of a Python source at a revision: its id, the
/// source and revision it was made at, the fact's location and its text.
#[derive(Debug, Clone, PartialEq, Eq)]
pub struct PythonObservation {
    pub id: String,
    pub source: String,
    pub revision: Revision,
    pub locator: String,
    pub fact: String,
}

pub struct ObservationView {
    pub id: Seq<char>,
    pub source: Seq<char>,
    pub revision: RevisionView,
    pub locator: Seq<char>,
    pub fact: Seq<char>,
}

impl View for PythonObservation {
    type V = ObservationView;

    open spec fn view(&self) -> ObservationView {
        ObservationView {
            id: self.id@,
            source: self.source@,
            revision: self.revision@,
            locator: self.locator@,
            fact: self.fact@,
        }
    }
}

pub open spec fn observation_views(s: Seq<PythonObservation>) -> Seq<ObservationView> {
    s.map_values(|o: PythonObservation| o@)
}

/// The facts of a Python source with one observation per fact.
#[derive(Debug, Clone, PartialEq, Eq)]
pub struct PythonAcquisition {
    pub facts: Vec<PythonFact>,
    pub observations: Vec<PythonObservation>,
}

/// `path:B<start>-B<end>:L<line>:C<column>-L<line>:C<column>`.
pub open spec fn fact_locator(f: PythonFactView) -> Seq<char> {
    f.path + ":B"@ + decimal(f.span.start_byte as nat) + "-B"@ + decimal(f.span.end_byte as nat) + ":L"@ + decimal(
        f.span.start_line as nat,
    ) + ":C"@ + decimal(f.span.start_column as nat) + "-L"@ + decimal(f.span.end_line as nat) + ":C"@ + decimal(
        f.span.end_column as nat,
    )
}

/// `obs.python.<source>.<path>.<start byte>.<end byte>.<kind name>`.
pub open spec fn observation_id(source: Seq<char>, f: PythonFactView) -> Seq<char> {
    "obs.python."@ + source + "."@ + f.path + "."@ + decimal(f.span.start_byte as nat) + "."@ + decimal(
        f.span.end_byte as nat,
    ) + "."@ + kind_name(f.kind)
}

/// What an observation says: the module by its path, any other fact by its
/// kind name and text.
pub open spec fn observation_text(f: PythonFactView) -> Seq<char> {
    if f.kind == PythonFactKind::Module {
        "Python module: "@ + f.path
    } else {
        "Python "@ + kind_name(f.kind) + ": "@ + f.text
    }
}

pub open spec fn observation_of(source: Seq<char>, revision: RevisionView, f: PythonFactView) -> ObservationView {
    ObservationView {
        id: observation_id(source, f),
        source,
        revision,
        locator: fact_locator(f),
        fact: observation_text(f),
    }
}

fn observe_fact(source_id: &str, revision: &Revision, f: &PythonFact) -> (r: PythonObservation)
    ensures
        r@ == observation_of(source_id@, revision@, f@),
{
    let mut id = owned("obs.python.");
    push_str(&mut id, source_id);
    push_str(&mut id, ".");
    push_str(&mut id, f.path.as_str());
    push_str(&mut id, ".");
    push_decimal(&mut id, f.span.start_byte);
    push_str(&mut id, ".");
    push_decimal(&mut id, f.span.end_byte);
    push_str(&mut id, ".");
    push_str(&mut id, fact_kind_name(f.kind));
    let mut locator = owned(f.path.as_str());
    push_str(&mut locator, ":B");
    push_decimal(&mut locator, f.span.start_byte);
    push_str(&mut locator, "-B");
    push_decimal(&mut locator, f.span.end_byte);
    push_str(&mut locator, ":L");
    push_decimal(&mut locator, f.span.start_line);
    push_str(&mut locator, ":C");
    push_decimal(&mut locator, f.span.start_column);
    push_str(&mut locator, "-L");
    push_decimal(&mut locator, f.span.end_line);
    push_str(&mut locator, ":C");
    push_decimal(&mut locator, f.span.end_column);
    let fact = if matches!(f.kind, PythonFactKind::Module) {
        let mut t = owned("Python module: ");
        push_str(&mut t, f.path.as_str());
        t
    } else {
        let mut t = owned("Python ");
        push_str(&mut t, fact_kind_name(f.kind));
        push_str(&mut t, ": ");
        push_str(&mut t, f.text.as_str());
        t
    };
    PythonObservation { id, source: owned(source_id), revision: clone_revision(revision), locator, fact }
}

/// Lists the facts of a Python source and observes each of them at the given
/// source and revision, in fact order.
pub fn observe_python_source(source_id: String, revision: Revision, path: &str, source: &str) -> (r: Result<
    PythonAcquisition,
    PythonAdapterError,
>)
    ensures
        match python_facts(path@, source@, python_syntax(source@)) {
            Ok(fs) => r matches Ok(a) && python_fact_views(a.facts@) == fs && observation_views(a.observations@)
                == fs.map_values(|f: PythonFactView| observation_of(source_id@, revision@, f)),
            Err(e) => r matches Err(x) && x@ == e,
        },
{
    let facts = match extract_python_facts(path, source) {
        Ok(facts) => facts,
        Err(e) => {
            return Err(e);
        },
    };
    let ghost fs = python_fact_views(facts@);
    let mut observations: Vec<PythonObservation> = Vec::new();
    let mut i: usize = 0;
    while i < facts.len()
        invariant
            i <= facts@.len(),
            fs == python_fact_views(facts@),
            observation_views(observations@) == fs.take(i as int).map_values(
                |f: PythonFactView| observation_of(source_id@, revision@, f),
            ),
        decreases facts.len() - i,
    {
        let o = observe_fact(source_id.as_str(), &revision, &facts[i]);
        let ghost before = observations@;
        observations.push(o);
        assert(observation_views(observations@) =~= fs.take(i as int + 1).map_values(
            |f: PythonFactView| observation_of(source_id@, revision@, f),
        )) by {
            assert(observations@ == before.push(o));
            assert(observation_views(before).len() == before.len());
            assert(fs.take(i as int).map_values(|f: PythonFactView| observation_of(source_id@, revision@, f)).len() == i);
            let lhs = observation_views(observations@);
            let old_rhs = fs.take(i as int).map_values(|f: PythonFactView| observation_of(source_id@, revision@, f));
            assert forall|j: int| 0 <= j < i implies lhs[j] == old_rhs[j] by {
                assert(observations@[j] == before[j]);
                assert(observation_views(before)[j] == before[j]@);
            }
        }
        i = i + 1;
    }
    assert(fs.take(facts@.len() as int) =~= fs);
    Ok(PythonAcquisition { facts, observations })
}

} // verus!
