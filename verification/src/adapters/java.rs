//! Contract-relevant facts of Java source: field declarations, method
//! invocations (assertions apart), conditional throws and comments.

use vstd::prelude::*;
use crate::adapters::syntax::{
    child_by_field, end_of_subtree, field_text, field_text_exec, find_child_by_field, find_first_descendant,
    first_descendant, java_syntax, lemma_first_from_range, node_text, of_kind, one_based, opt_view, parse_java_syntax,
    subtree_end, syntax_view, text_at, text_of, to_one_based, ParseFailure, SyntaxEntry,
};
use crate::order::{
    key_of, lemma_stable_sort_map, lemma_stable_sort_ordered, lemma_stable_sort_permutes, num_key, ordered_by, push_num_key, push_rank_key, rank_key, sort_by_key, stable_sort_by,
    SortKey,
};
use crate::text::{owned, push_str, starts_with, text_eq, text_starts_with};

verus! {

#[derive(Debug, Clone, Copy, PartialEq, Eq)]
pub enum JavaFactKind {
    FieldDeclaration,
    MethodInvocation,
    ConditionalThrow,
    Comment,
    TestAssertion,
}

/// One-based line and column range of a fact.
#[derive(Debug, Clone, Copy, PartialEq, Eq)]
pub struct SourceSpan {
    pub start_line: usize,
    pub start_column: usize,
    pub end_line: usize,
    pub end_column: usize,
}

#[derive(Debug, Clone, PartialEq, Eq)]
pub struct JavaFact {
    pub kind: JavaFactKind,
    pub path: String,
    pub span: SourceSpan,
    pub name: Option<String>,
    pub condition: Option<String>,
    pub text: String,
}

pub struct JavaFactView {
    pub kind: JavaFactKind,
    pub path: Seq<char>,
    pub span: SourceSpan,
    pub name: Option<Seq<char>>,
    pub condition: Option<Seq<char>>,
    pub text: Seq<char>,
}

impl View for JavaFact {
    type V = JavaFactView;

    open spec fn view(&self) -> JavaFactView {
        JavaFactView {
            kind: self.kind,
            path: self.path@,
            span: self.span,
            name: opt_view(self.name),
            condition: opt_view(self.condition),
            text: self.text@,
        }
    }
}

pub open spec fn java_fact_views(s: Seq<JavaFact>) -> Seq<JavaFactView> {
    s.map_values(|f: JavaFact| f@)
}

#[derive(Debug, Clone, PartialEq, Eq)]
pub enum JavaAdapterError {
    Language(String),
    ParseFailed,
    SyntaxError,
}

pub enum JavaErrorView {
    Language(Seq<char>),
    ParseFailed,
    SyntaxError,
}

impl View for JavaAdapterError {
    type V = JavaErrorView;

    open spec fn view(&self) -> JavaErrorView {
        match self {
            JavaAdapterError::Language(m) => JavaErrorView::Language(m@),
            JavaAdapterError::ParseFailed => JavaErrorView::ParseFailed,
            JavaAdapterError::SyntaxError => JavaErrorView::SyntaxError,
        }
    }
}

impl JavaAdapterError {
    /// The error as text.
    pub fn message(&self) -> (r: String)
        ensures
            r@ == match self@ {
                JavaErrorView::Language(m) => "cannot load Java grammar: "@ + m,
                JavaErrorView::ParseFailed => "Tree-sitter did not produce a Java syntax tree"@,
                JavaErrorView::SyntaxError => "Java source contains syntax errors"@,
            },
    {
        match self {
            JavaAdapterError::Language(m) => {
                let mut r = owned("cannot load Java grammar: ");
                push_str(&mut r, m.as_str());
                r
            },
            JavaAdapterError::ParseFailed => owned("Tree-sitter did not produce a Java syntax tree"),
            JavaAdapterError::SyntaxError => owned("Java source contains syntax errors"),
        }
    }
}

/// Where a kind of fact sorts among facts that start at the same position.
pub open spec fn kind_order(k: JavaFactKind) -> u32 {
    match k {
        JavaFactKind::FieldDeclaration => 0,
        JavaFactKind::MethodInvocation => 1,
        JavaFactKind::ConditionalThrow => 2,
        JavaFactKind::Comment => 3,
        JavaFactKind::TestAssertion => 4,
    }
}

pub fn fact_kind_order(k: JavaFactKind) -> (r: u32)
    ensures
        r == kind_order(k),
{
    match k {
        JavaFactKind::FieldDeclaration => 0,
        JavaFactKind::MethodInvocation => 1,
        JavaFactKind::ConditionalThrow => 2,
        JavaFactKind::Comment => 3,
        JavaFactKind::TestAssertion => 4,
    }
}

pub open spec fn span_of(e: SyntaxEntry) -> SourceSpan {
    SourceSpan {
        start_line: one_based(e.start_row),
        start_column: one_based(e.start_column),
        end_line: one_based(e.end_row),
        end_column: one_based(e.end_column),
    }
}

/// A field declaration's name: the name of its first variable declarator.
pub open spec fn field_name(es: Seq<SyntaxEntry>, source: Seq<char>, i: int) -> Option<Seq<char>> {
    match first_descendant(es, i, "variable_declarator"@) {
        Some(d) => field_text(es, source, d, "name"@),
        None => None,
    }
}

/// The type that a throw statement creates: the `type` of its first object
/// creation, else that creation's first type identifier.
pub open spec fn thrown_type(es: Seq<SyntaxEntry>, source: Seq<char>, t: int) -> Option<Seq<char>> {
    match first_descendant(es, t, "object_creation_expression"@) {
        None => None,
        Some(c) => match child_by_field(es, c, "type"@) {
            Some(x) => Some(node_text(source, es[x])),
            None => text_at(es, source, first_descendant(es, c, "type_identifier"@)),
        },
    }
}

pub open spec fn fact_of(
    kind: JavaFactKind,
    path: Seq<char>,
    source: Seq<char>,
    e: SyntaxEntry,
    name: Option<Seq<char>>,
    condition: Option<Seq<char>>,
) -> JavaFactView {
    JavaFactView { kind, path, span: span_of(e), name, condition, text: node_text(source, e) }
}

/// An invocation is an assertion when the invoked name starts with `assert`.
pub open spec fn invocation_kind(name: Option<Seq<char>>) -> JavaFactKind {
    if name matches Some(v) && starts_with(v, "assert"@) {
        JavaFactKind::TestAssertion
    } else {
        JavaFactKind::MethodInvocation
    }
}

/// The fact that node `i` contributes, if any.
pub open spec fn fact_at(es: Seq<SyntaxEntry>, source: Seq<char>, path: Seq<char>, i: int) -> Option<JavaFactView> {
    let e = es[i];
    let k = e.kind@;
    if k == "field_declaration"@ {
        Some(fact_of(JavaFactKind::FieldDeclaration, path, source, e, field_name(es, source, i), None))
    } else if k == "method_invocation"@ {
        let name = field_text(es, source, i, "name"@);
        Some(fact_of(invocation_kind(name), path, source, e, name, None))
    } else if k == "if_statement"@ {
        match first_descendant(es, i, "throw_statement"@) {
            Some(t) => Some(
                fact_of(
                    JavaFactKind::ConditionalThrow,
                    path,
                    source,
                    e,
                    thrown_type(es, source, t),
                    field_text(es, source, i, "condition"@),
                ),
            ),
            None => None,
        }
    } else if k == "line_comment"@ || k == "block_comment"@ {
        Some(fact_of(JavaFactKind::Comment, path, source, e, None, None))
    } else {
        None
    }
}

/// The facts of the first `n` nodes, in document order.
pub open spec fn facts_upto(es: Seq<SyntaxEntry>, source: Seq<char>, path: Seq<char>, n: int) -> Seq<JavaFactView>
    decreases n,
{
    if n <= 0 {
        Seq::empty()
    } else {
        let rest = facts_upto(es, source, path, n - 1);
        match fact_at(es, source, path, n - 1) {
            Some(f) => rest.push(f),
            None => rest,
        }
    }
}

/// Facts order by start line, then start column, then kind.
pub open spec fn fact_key(f: JavaFactView) -> Seq<u32> {
    num_key(f.span.start_line as u64) + num_key(f.span.start_column as u64) + rank_key(kind_order(f.kind))
}

pub open spec fn fact_key_fn() -> spec_fn(JavaFactView) -> Seq<u32> {
    |f: JavaFactView| fact_key(f)
}

/// The facts of a Java source, given what the parser made of it.
pub open spec fn java_facts(
    path: Seq<char>,
    source: Seq<char>,
    syntax: Result<Seq<SyntaxEntry>, ParseFailure>,
) -> Result<Seq<JavaFactView>, JavaErrorView> {
    match syntax {
        Err(ParseFailure::Language(m)) => Err(JavaErrorView::Language(m@)),
        Err(ParseFailure::NoTree) => Err(JavaErrorView::ParseFailed),
        Ok(es) => if es.len() == 0 {
            Err(JavaErrorView::ParseFailed)
        } else if es[0].has_error {
            Err(JavaErrorView::SyntaxError)
        } else {
            Ok(stable_sort_by(facts_upto(es, source, path, es.len() as int), fact_key_fn()))
        },
    }
}

/// The facts of a Java source come out ordered by start line, then start
/// column, then kind; they are the facts of the nodes in document order,
/// rearranged.
pub proof fn law_java_facts_ordered(path: Seq<char>, source: Seq<char>, syntax: Result<Seq<SyntaxEntry>, ParseFailure>)
    requires
        syntax matches Ok(es) && es.len() > 0 && !es[0].has_error,
    ensures
        java_facts(path, source, syntax) matches Ok(fs) && ordered_by(fs, fact_key_fn()) && fs.to_multiset()
            == facts_upto(syntax->Ok_0, source, path, syntax->Ok_0.len() as int).to_multiset(),
{
    let es = syntax->Ok_0;
    lemma_stable_sort_ordered(facts_upto(es, source, path, es.len() as int), fact_key_fn());
    lemma_stable_sort_permutes(facts_upto(es, source, path, es.len() as int), fact_key_fn());
}

/// The facts of the first `n` nodes are the facts those nodes contribute.
proof fn lemma_facts_upto_members(es: Seq<SyntaxEntry>, source: Seq<char>, path: Seq<char>, n: int)
    requires
        0 <= n <= es.len(),
    ensures
        forall|f: JavaFactView| facts_upto(es, source, path, n).contains(f) <==> exists|j: int|
            0 <= j < n && #[trigger] fact_at(es, source, path, j) == Some(f),
    decreases n,
{
    if n > 0 {
        lemma_facts_upto_members(es, source, path, n - 1);
        let rest = facts_upto(es, source, path, n - 1);
        assert forall|f: JavaFactView| facts_upto(es, source, path, n).contains(f) <==> exists|j: int|
            0 <= j < n && #[trigger] fact_at(es, source, path, j) == Some(f) by {
            match fact_at(es, source, path, n - 1) {
                Some(g) => {
                    if rest.push(g).contains(f) && f != g {
                        let i = choose|i: int| 0 <= i < rest.push(g).len() && rest.push(g)[i] == f;
                        assert(rest[i] == f);
                    }
                    if rest.contains(f) {
                        let i = choose|i: int| 0 <= i < rest.len() && rest[i] == f;
                        assert(rest.push(g)[i] == f);
                    }
                    assert(rest.push(g)[rest.len() as int] == g);
                },
                None => {},
            }
        }
    }
}

/// The comment fact of a node.
pub open spec fn comment_fact(path: Seq<char>, source: Seq<char>, e: SyntaxEntry) -> JavaFactView {
    JavaFactView {
        kind: JavaFactKind::Comment,
        path,
        span: span_of(e),
        name: None,
        condition: None,
        text: node_text(source, e),
    }
}

/// Every line comment and every block comment of a parsed Java source becomes a
/// comment fact with the comment's span and text, and every comment fact comes
/// from such a comment.
pub proof fn law_java_comments_are_facts(path: Seq<char>, source: Seq<char>, es: Seq<SyntaxEntry>)
    requires
        es.len() > 0,
        !es[0].has_error,
    ensures
        java_facts(path, source, Ok(es)) is Ok,
        forall|j: int| 0 <= j < es.len() && (es[j].kind@ == "line_comment"@ || es[j].kind@ == "block_comment"@)
            ==> java_facts(path, source, Ok(es))->Ok_0.contains(#[trigger] comment_fact(path, source, es[j])),
        forall|f: JavaFactView| #[trigger] java_facts(path, source, Ok(es))->Ok_0.contains(f) && f.kind
            == JavaFactKind::Comment ==> exists|j: int|
            0 <= j < es.len() && (es[j].kind@ == "line_comment"@ || es[j].kind@ == "block_comment"@) && f
                == comment_fact(path, source, es[j]),
{
    broadcast use vstd::seq_lib::group_to_multiset_ensures;

    let all = facts_upto(es, source, path, es.len() as int);
    let fs = java_facts(path, source, Ok(es))->Ok_0;
    lemma_facts_upto_members(es, source, path, es.len() as int);
    lemma_stable_sort_permutes(all, fact_key_fn());
    assert forall|f: JavaFactView| fs.contains(f) <==> all.contains(f) by {
        assert(fs.contains(f) <==> fs.to_multiset().count(f) > 0);
        assert(all.contains(f) <==> all.to_multiset().count(f) > 0);
    }
    assert forall|j: int| 0 <= j < es.len() && (es[j].kind@ == "line_comment"@ || es[j].kind@ == "block_comment"@)
        implies fs.contains(#[trigger] comment_fact(path, source, es[j])) by {
        reveal_strlit("field_declaration");
        reveal_strlit("method_invocation");
        reveal_strlit("if_statement");
        reveal_strlit("line_comment");
        reveal_strlit("block_comment");
        let k = es[j].kind@;
        assert(k != "field_declaration"@ && k != "method_invocation"@ && k != "if_statement"@) by {
            assert(k.len() == 12 || k.len() == 13);
            if k.len() == 12 {
                assert(k[0] == 'l');
                assert("if_statement"@[0] == 'i');
            }
        }
        assert(fact_at(es, source, path, j) == Some(comment_fact(path, source, es[j])));
    }
    assert forall|f: JavaFactView| #[trigger] fs.contains(f) && f.kind == JavaFactKind::Comment implies exists|j: int|
        0 <= j < es.len() && (es[j].kind@ == "line_comment"@ || es[j].kind@ == "block_comment"@) && f
            == comment_fact(path, source, es[j]) by {
        let j = choose|j: int| 0 <= j < es.len() && #[trigger] fact_at(es, source, path, j) == Some(f);
        assert(f == comment_fact(path, source, es[j]));
    }
}

impl SortKey for JavaFact {
    open spec fn sort_key(&self) -> Seq<u32> {
        fact_key(self@)
    }

    fn sort_key_exec(&self) -> (k: Vec<u32>) {
        let mut k: Vec<u32> = Vec::new();
        push_num_key(&mut k, self.span.start_line as u64);
        push_num_key(&mut k, self.span.start_column as u64);
        push_rank_key(&mut k, fact_kind_order(self.kind));
        assert(k@ =~= fact_key(self@));
        k
    }
}

// ---- executable ----

fn span_exec(e: &SyntaxEntry) -> (r: SourceSpan)
    ensures
        r == span_of(*e),
{
    SourceSpan {
        start_line: to_one_based(e.start_row),
        start_column: to_one_based(e.start_column),
        end_line: to_one_based(e.end_row),
        end_column: to_one_based(e.end_column),
    }
}

proof fn lemma_descendant_range(es: Seq<SyntaxEntry>, i: int, k: Seq<char>)
    requires
        0 <= i < es.len(),
    ensures
        first_descendant(es, i, k) matches Some(x) ==> i < x < es.len() && es[x].kind@ == k,
{
    lemma_first_from_range(es, i + 1, subtree_end(es, i), of_kind(k));
}

fn field_name_exec(es: &Vec<SyntaxEntry>, source: &str, i: usize) -> (r: Option<String>)
    requires
        i < es.len(),
    ensures
        opt_view(r) == field_name(es@, source@, i as int),
{
    proof {
        lemma_descendant_range(es@, i as int, "variable_declarator"@);
    }
    match find_first_descendant(es, i, "variable_declarator") {
        Some(d) => field_text_exec(es, source, d, "name"),
        None => None,
    }
}

fn thrown_type_exec(es: &Vec<SyntaxEntry>, source: &str, t: usize) -> (r: Option<String>)
    requires
        t < es.len(),
    ensures
        opt_view(r) == thrown_type(es@, source@, t as int),
{
    proof {
        lemma_descendant_range(es@, t as int, "object_creation_expression"@);
    }
    let c = match find_first_descendant(es, t, "object_creation_expression") {
        None => {
            return None;
        },
        Some(c) => c,
    };
    proof {
        lemma_first_from_range(
            es@,
            c + 1,
            subtree_end(es@, c as int),
            crate::adapters::syntax::field_child(es@[c as int].depth, "type"@),
        );
        lemma_descendant_range(es@, c as int, "type_identifier"@);
    }
    match find_child_by_field(es, c, "type") {
        Some(x) => Some(text_of(source, &es[x])),
        None => match find_first_descendant(es, c, "type_identifier") {
            Some(x) => Some(text_of(source, &es[x])),
            None => None,
        },
    }
}

fn make_fact(
    kind: JavaFactKind,
    path: &str,
    source: &str,
    e: &SyntaxEntry,
    name: Option<String>,
    condition: Option<String>,
) -> (r: JavaFact)
    ensures
        r@ == fact_of(kind, path@, source@, *e, opt_view(name), opt_view(condition)),
{
    JavaFact { kind, path: owned(path), span: span_exec(e), name, condition, text: text_of(source, e) }
}

fn fact_at_exec(es: &Vec<SyntaxEntry>, source: &str, path: &str, i: usize) -> (r: Option<JavaFact>)
    requires
        i < es.len(),
    ensures
        match fact_at(es@, source@, path@, i as int) {
            Some(f) => r matches Some(x) && x@ == f,
            None => r is None,
        },
{
    let e = &es[i];
    let k = e.kind.as_str();
    if text_eq(k, "field_declaration") {
        Some(make_fact(JavaFactKind::FieldDeclaration, path, source, e, field_name_exec(es, source, i), None))
    } else if text_eq(k, "method_invocation") {
        let name = field_text_exec(es, source, i, "name");
        let kind = match &name {
            Some(v) => if text_starts_with(v.as_str(), "assert") {
                JavaFactKind::TestAssertion
            } else {
                JavaFactKind::MethodInvocation
            },
            None => JavaFactKind::MethodInvocation,
        };
        Some(make_fact(kind, path, source, e, name, None))
    } else if text_eq(k, "if_statement") {
        proof {
            lemma_descendant_range(es@, i as int, "throw_statement"@);
        }
        match find_first_descendant(es, i, "throw_statement") {
            Some(t) => {
                let name = thrown_type_exec(es, source, t);
                let condition = field_text_exec(es, source, i, "condition");
                Some(make_fact(JavaFactKind::ConditionalThrow, path, source, e, name, condition))
            },
            None => None,
        }
    } else if text_eq(k, "line_comment") || text_eq(k, "block_comment") {
        Some(make_fact(JavaFactKind::Comment, path, source, e, None, None))
    } else {
        None
    }
}

/// The facts of a Java source from its parsed node list, ordered by start
/// line, start column and kind.
pub fn java_facts_from_syntax(path: &str, source: &str, syntax: Result<Vec<SyntaxEntry>, ParseFailure>) -> (r: Result<
    Vec<JavaFact>,
    JavaAdapterError,
>)
    ensures
        match java_facts(path@, source@, syntax_view(syntax)) {
            Ok(fs) => r matches Ok(v) && java_fact_views(v@) == fs,
            Err(e) => r matches Err(x) && x@ == e,
        },
{
    let es = match syntax {
        Err(ParseFailure::Language(m)) => {
            return Err(JavaAdapterError::Language(m));
        },
        Err(ParseFailure::NoTree) => {
            return Err(JavaAdapterError::ParseFailed);
        },
        Ok(es) => es,
    };
    if es.len() == 0 {
        return Err(JavaAdapterError::ParseFailed);
    }
    if es[0].has_error {
        return Err(JavaAdapterError::SyntaxError);
    }
    let mut facts: Vec<JavaFact> = Vec::new();
    assert(java_fact_views(facts@) =~= facts_upto(es@, source@, path@, 0));
    let mut i: usize = 0;
    while i < es.len()
        invariant
            i <= es@.len(),
            java_fact_views(facts@) == facts_upto(es@, source@, path@, i as int),
        decreases es.len() - i,
    {
        let ghost before = facts@;
        match fact_at_exec(&es, source, path, i) {
            Some(f) => {
                facts.push(f);
                assert(facts@ == before.push(f));
                assert(java_fact_views(facts@) =~= java_fact_views(before).push(f@));
            },
            None => {},
        }
        i = i + 1;
    }
    let sorted = sort_by_key(facts);
    proof {
        lemma_stable_sort_map(facts@, key_of::<JavaFact>(), |f: JavaFact| f@, fact_key_fn());
    }
    Ok(sorted)
}

/// Parses a Java source with Tree-sitter and lists its facts.
pub fn extract_java_facts(path: &str, source: &str) -> (r: Result<Vec<JavaFact>, JavaAdapterError>)
    ensures
        match java_facts(path@, source@, java_syntax(source@)) {
            Ok(fs) => r matches Ok(v) && java_fact_views(v@) == fs,
            Err(e) => r matches Err(x) && x@ == e,
        },
{
    let syntax = parse_java_syntax(source);
    java_facts_from_syntax(path, source, syntax)
}

} // verus!
