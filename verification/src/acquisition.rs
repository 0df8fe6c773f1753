//! Source acquisition: adapter registry decisions, JSON fact extraction and diagnostics.

use vstd::prelude::*;
use crate::json::{
    decimal, escape_pointer, json_document, json_wf, keys_ascend, parse_json, push_decimal, push_escaped_segment, JsonMember,
    JsonValue,
};
use crate::model::{clone_revision, Revision, RevisionView};
use crate::registry::AcquisitionError;
use crate::text::{owned, push_str};

verus! {

/// A copy of a byte slice.
pub fn copy_bytes(b: &[u8]) -> (r: Vec<u8>)
    ensures
        r@ == b@,
{
    let mut r: Vec<u8> = Vec::new();
    let mut i: usize = 0;
    while i < b.len()
        invariant
            i <= b.len(),
            r@ == b@.take(i as int),
        decreases b.len() - i,
    {
        r.push(b[i]);
        assert(b@.take(i + 1) =~= b@.take(i as int).push(b@[i as int]));
        i = i + 1;
    }
    assert(b@.take(b.len() as int) =~= b@);
    r
}

/// A copy of a list of flags.
pub fn copy_flags(b: &Vec<bool>) -> (r: Vec<bool>)
    ensures
        r@ == b@,
{
    let mut r: Vec<bool> = Vec::new();
    let mut i: usize = 0;
    while i < b.len()
        invariant
            i <= b.len(),
            r@ == b@.take(i as int),
        decreases b.len() - i,
    {
        r.push(b[i]);
        assert(b@.take(i + 1) =~= b@.take(i as int).push(b@[i as int]));
        i = i + 1;
    }
    assert(b@.take(b.len() as int) =~= b@);
    r
}

/// Where the scanner of `strip_json_comments` stands.
#[derive(Clone, Copy, PartialEq, Eq, Structural)]
pub enum ScanState {
    Normal,
    InString,
    LineComment,
    BlockComment,
}

pub open spec fn is_newline(b: u8) -> bool {
    b == 10 || b == 13
}

/// Scans `b` from position `i` in state `st`, blanking comment bytes of `out` with spaces.
pub open spec fn strip_from(b: Seq<u8>, i: int, st: ScanState, out: Seq<u8>) -> Seq<u8>
    decreases b.len() - i,
{
    if i < 0 || i >= b.len() {
        out
    } else {
        match st {
            ScanState::Normal => if b[i] == 34 {
                strip_from(b, i + 1, ScanState::InString, out)
            } else if b[i] == 47 && i + 1 < b.len() && b[i + 1] == 47 {
                strip_from(b, i + 2, ScanState::LineComment, out.update(i, 32).update(i + 1, 32))
            } else if b[i] == 47 && i + 1 < b.len() && b[i + 1] == 42 {
                strip_from(b, i + 2, ScanState::BlockComment, out.update(i, 32).update(i + 1, 32))
            } else {
                strip_from(b, i + 1, ScanState::Normal, out)
            },
            ScanState::InString => if b[i] == 92 {
                strip_from(b, if i + 1 < b.len() { i + 2 } else { i + 1 }, ScanState::InString, out)
            } else if b[i] == 34 {
                strip_from(b, i + 1, ScanState::Normal, out)
            } else {
                strip_from(b, i + 1, ScanState::InString, out)
            },
            ScanState::LineComment => if is_newline(b[i]) {
                strip_from(b, i + 1, ScanState::Normal, out)
            } else {
                strip_from(b, i + 1, ScanState::LineComment, out.update(i, 32))
            },
            ScanState::BlockComment => if b[i] == 42 && i + 1 < b.len() && b[i + 1] == 47 {
                strip_from(b, i + 2, ScanState::Normal, out.update(i, 32).update(i + 1, 32))
            } else if is_newline(b[i]) {
                strip_from(b, i + 1, ScanState::BlockComment, out)
            } else {
                strip_from(b, i + 1, ScanState::BlockComment, out.update(i, 32))
            },
        }
    }
}

/// JSON with `//` line comments and `/* */` block comments blanked out.
pub open spec fn strip_json_comments_spec(b: Seq<u8>) -> Seq<u8> {
    strip_from(b, 0, ScanState::Normal, b)
}

/// Scanning never changes a byte before where it starts, nor the length.
proof fn lemma_strip_keeps_before(b: Seq<u8>, i: int, st: ScanState, out: Seq<u8>, k: int)
    requires
        0 <= i,
        0 <= k < i,
        k < out.len(),
        out.len() == b.len(),
    ensures
        strip_from(b, i, st, out).len() == out.len(),
        strip_from(b, i, st, out)[k] == out[k],
    decreases b.len() - i,
{
    if i < b.len() {
        match st {
            ScanState::Normal => if b[i] == 34 {
                lemma_strip_keeps_before(b, i + 1, ScanState::InString, out, k);
            } else if b[i] == 47 && i + 1 < b.len() && b[i + 1] == 47 {
                lemma_strip_keeps_before(b, i + 2, ScanState::LineComment, out.update(i, 32).update(i + 1, 32), k);
            } else if b[i] == 47 && i + 1 < b.len() && b[i + 1] == 42 {
                lemma_strip_keeps_before(b, i + 2, ScanState::BlockComment, out.update(i, 32).update(i + 1, 32), k);
            } else {
                lemma_strip_keeps_before(b, i + 1, ScanState::Normal, out, k);
            },
            ScanState::InString => if b[i] == 92 {
                lemma_strip_keeps_before(b, if i + 1 < b.len() { i + 2 } else { i + 1 }, ScanState::InString, out, k);
            } else if b[i] == 34 {
                lemma_strip_keeps_before(b, i + 1, ScanState::Normal, out, k);
            } else {
                lemma_strip_keeps_before(b, i + 1, ScanState::InString, out, k);
            },
            ScanState::LineComment => if is_newline(b[i]) {
                lemma_strip_keeps_before(b, i + 1, ScanState::Normal, out, k);
            } else {
                lemma_strip_keeps_before(b, i + 1, ScanState::LineComment, out.update(i, 32), k);
            },
            ScanState::BlockComment => if b[i] == 42 && i + 1 < b.len() && b[i + 1] == 47 {
                lemma_strip_keeps_before(b, i + 2, ScanState::Normal, out.update(i, 32).update(i + 1, 32), k);
            } else if is_newline(b[i]) {
                lemma_strip_keeps_before(b, i + 1, ScanState::BlockComment, out, k);
            } else {
                lemma_strip_keeps_before(b, i + 1, ScanState::BlockComment, out.update(i, 32), k);
            },
        }
    }
}

/// The state in which a second scan of the stripped bytes stands where the
/// first scan stood in `st`: inside a string, or outside comments and strings.
pub open spec fn rescan_state(st: ScanState) -> ScanState {
    match st {
        ScanState::InString => ScanState::InString,
        _ => ScanState::Normal,
    }
}

/// Scanning the stripped bytes again from where the first scan stood changes nothing.
proof fn lemma_strip_rescan(b: Seq<u8>, i: int, st: ScanState, out: Seq<u8>)
    requires
        0 <= i,
        out.len() == b.len(),
        forall|k: int| i <= k < b.len() ==> out[k] == b[k],
    ensures
        strip_from(strip_from(b, i, st, out), i, rescan_state(st), strip_from(b, i, st, out)) == strip_from(b, i, st, out),
    decreases b.len() - i,
{
    let o = strip_from(b, i, st, out);
    if i < b.len() {
        match st {
            ScanState::Normal => if b[i] == 34 {
                lemma_strip_keeps_before(b, i + 1, ScanState::InString, out, i);
                lemma_strip_rescan(b, i + 1, ScanState::InString, out);
            } else if b[i] == 47 && i + 1 < b.len() && b[i + 1] == 47 {
                let o2 = out.update(i, 32).update(i + 1, 32);
                lemma_strip_keeps_before(b, i + 2, ScanState::LineComment, o2, i);
                lemma_strip_keeps_before(b, i + 2, ScanState::LineComment, o2, i + 1);
                lemma_strip_rescan(b, i + 2, ScanState::LineComment, o2);
                assert(strip_from(o, i + 1, ScanState::Normal, o) == strip_from(o, i + 2, ScanState::Normal, o));
            } else if b[i] == 47 && i + 1 < b.len() && b[i + 1] == 42 {
                let o2 = out.update(i, 32).update(i + 1, 32);
                lemma_strip_keeps_before(b, i + 2, ScanState::BlockComment, o2, i);
                lemma_strip_keeps_before(b, i + 2, ScanState::BlockComment, o2, i + 1);
                lemma_strip_rescan(b, i + 2, ScanState::BlockComment, o2);
                assert(strip_from(o, i + 1, ScanState::Normal, o) == strip_from(o, i + 2, ScanState::Normal, o));
            } else {
                lemma_strip_keeps_before(b, i + 1, ScanState::Normal, out, i);
                if b[i] == 47 && i + 1 < b.len() {
                    if b[i + 1] == 34 {
                        lemma_strip_keeps_before(b, i + 2, ScanState::InString, out, i + 1);
                    } else {
                        lemma_strip_keeps_before(b, i + 2, ScanState::Normal, out, i + 1);
                    }
                    assert(o[i + 1] == b[i + 1]);
                }
                lemma_strip_rescan(b, i + 1, ScanState::Normal, out);
            },
            ScanState::InString => if b[i] == 92 {
                let j = if i + 1 < b.len() { i + 2 } else { i + 1 };
                lemma_strip_keeps_before(b, j, ScanState::InString, out, i);
                lemma_strip_rescan(b, j, ScanState::InString, out);
            } else if b[i] == 34 {
                lemma_strip_keeps_before(b, i + 1, ScanState::Normal, out, i);
                lemma_strip_rescan(b, i + 1, ScanState::Normal, out);
            } else {
                lemma_strip_keeps_before(b, i + 1, ScanState::InString, out, i);
                lemma_strip_rescan(b, i + 1, ScanState::InString, out);
            },
            ScanState::LineComment => if is_newline(b[i]) {
                lemma_strip_keeps_before(b, i + 1, ScanState::Normal, out, i);
                lemma_strip_rescan(b, i + 1, ScanState::Normal, out);
            } else {
                lemma_strip_keeps_before(b, i + 1, ScanState::LineComment, out.update(i, 32), i);
                lemma_strip_rescan(b, i + 1, ScanState::LineComment, out.update(i, 32));
            },
            ScanState::BlockComment => if b[i] == 42 && i + 1 < b.len() && b[i + 1] == 47 {
                let o2 = out.update(i, 32).update(i + 1, 32);
                lemma_strip_keeps_before(b, i + 2, ScanState::Normal, o2, i);
                lemma_strip_keeps_before(b, i + 2, ScanState::Normal, o2, i + 1);
                lemma_strip_rescan(b, i + 2, ScanState::Normal, o2);
                assert(strip_from(o, i + 1, ScanState::Normal, o) == strip_from(o, i + 2, ScanState::Normal, o));
            } else if is_newline(b[i]) {
                lemma_strip_keeps_before(b, i + 1, ScanState::BlockComment, out, i);
                lemma_strip_rescan(b, i + 1, ScanState::BlockComment, out);
            } else {
                lemma_strip_keeps_before(b, i + 1, ScanState::BlockComment, out.update(i, 32), i);
                lemma_strip_rescan(b, i + 1, ScanState::BlockComment, out.update(i, 32));
            },
        }
    }
}

/// Stripping comments twice strips as much as stripping them once: the
/// stripped bytes hold no comment outside strings.
pub proof fn law_stripping_comments_is_idempotent(bytes: Seq<u8>)
    ensures
        strip_json_comments_spec(strip_json_comments_spec(bytes)) == strip_json_comments_spec(bytes),
{
    lemma_strip_rescan(bytes, 0, ScanState::Normal, bytes);
}

/// Replaces comments outside JSON strings with spaces, keeping every line break and
/// every byte position, so that a JSON parser accepts commented JSON.
pub fn strip_json_comments(bytes: &[u8]) -> (r: Vec<u8>)
    ensures
        r@ == strip_json_comments_spec(bytes@),
        r@.len() == bytes@.len(),
        forall|k: int| 0 <= k < bytes@.len() ==> r@[k] == bytes@[k] || r@[k] == 32,
        forall|k: int| 0 <= k < bytes@.len() && is_newline(#[trigger] bytes@[k]) ==> r@[k] == bytes@[k],
{
    let mut output: Vec<u8> = copy_bytes(bytes);
    let mut state = ScanState::Normal;
    let mut index: usize = 0;
    let n = bytes.len();
    while index < n
        invariant
            n == bytes.len(),
            index <= n,
            output@.len() == n,
            strip_from(bytes@, index as int, state, output@) == strip_json_comments_spec(bytes@),
            forall|k: int| 0 <= k < n ==> output@[k] == bytes@[k] || output@[k] == 32,
            forall|k: int| 0 <= k < n && is_newline(#[trigger] bytes@[k]) ==> output@[k] == bytes@[k],
        decreases n - index,
    {
        let b = bytes[index];
        match state {
            ScanState::Normal => {
                if b == 34 {
                    state = ScanState::InString;
                    index = index + 1;
                } else if b == 47 && index + 1 < n && bytes[index + 1] == 47 {
                    output.set(index, 32);
                    output.set(index + 1, 32);
                    state = ScanState::LineComment;
                    index = index + 2;
                } else if b == 47 && index + 1 < n && bytes[index + 1] == 42 {
                    output.set(index, 32);
                    output.set(index + 1, 32);
                    state = ScanState::BlockComment;
                    index = index + 2;
                } else {
                    index = index + 1;
                }
            },
            ScanState::InString => {
                if b == 92 {
                    index = index + 1;
                    if index < n {
                        index = index + 1;
                    }
                } else if b == 34 {
                    state = ScanState::Normal;
                    index = index + 1;
                } else {
                    index = index + 1;
                }
            },
            ScanState::LineComment => {
                if b == 10 || b == 13 {
                    state = ScanState::Normal;
                } else {
                    output.set(index, 32);
                }
                index = index + 1;
            },
            ScanState::BlockComment => {
                if b == 42 && index + 1 < n && bytes[index + 1] == 47 {
                    output.set(index, 32);
                    output.set(index + 1, 32);
                    state = ScanState::Normal;
                    index = index + 2;
                } else {
                    if !(b == 10 || b == 13) {
                        output.set(index, 32);
                    }
                    index = index + 1;
                }
            },
        }
    }
    output
}

/// A source span: byte range and zero-based rows and columns.
#[derive(Debug, Clone, Copy, PartialEq, Eq, PartialOrd, Ord)]
pub struct AcquiredSpan {
    pub start_byte: usize,
    pub end_byte: usize,
    pub start_row: usize,
    pub start_column: usize,
    pub end_row: usize,
    pub end_column: usize,
}

/// The explicit provenance under which a tree is acquired.
#[derive(Debug, Clone, PartialEq, Eq)]
pub struct AcquisitionContext {
    pub source: String,
    pub revision: Revision,
}

impl AcquisitionContext {
    pub fn new(source: String, revision: Revision) -> (r: AcquisitionContext)
        ensures
            r.source@ == source@,
            r.revision@ == revision@,
    {
        AcquisitionContext { source, revision }
    }
}

/// One fact that an adapter observed in a source file.
#[derive(Debug, Clone, PartialEq, Eq)]
pub struct AcquiredFact {
    pub adapter: String,
    pub kind: String,
    pub path: String,
    pub locator: String,
    pub text: String,
    pub source: String,
    pub revision: Revision,
    pub span: Option<AcquiredSpan>,
}

pub struct FactView {
    pub adapter: Seq<char>,
    pub kind: Seq<char>,
    pub path: Seq<char>,
    pub locator: Seq<char>,
    pub text: Seq<char>,
    pub source: Seq<char>,
    pub revision: RevisionView,
    pub span: Option<AcquiredSpan>,
}

impl View for AcquiredFact {
    type V = FactView;

    open spec fn view(&self) -> FactView {
        FactView {
            adapter: self.adapter@,
            kind: self.kind@,
            path: self.path@,
            locator: self.locator@,
            text: self.text@,
            source: self.source@,
            revision: self.revision@,
            span: self.span,
        }
    }
}

pub open spec fn fact_views(s: Seq<AcquiredFact>) -> Seq<FactView> {
    s.map_values(|f: AcquiredFact| f@)
}

pub open spec fn json_kind(v: JsonValue) -> Seq<char> {
    match v {
        JsonValue::Null => "null"@,
        JsonValue::Bool(_) => "boolean"@,
        JsonValue::Number(_) => "number"@,
        JsonValue::Text(_) => "string"@,
        JsonValue::Array(_) => "array"@,
        JsonValue::Object(_) => "object"@,
    }
}

pub open spec fn json_text(v: JsonValue) -> Seq<char> {
    match v {
        JsonValue::Null => "null"@,
        JsonValue::Bool(b) => if b { "true"@ } else { "false"@ },
        JsonValue::Number(n) => n@,
        JsonValue::Text(t) => t@,
        JsonValue::Array(items) => decimal(items@.len()) + " items"@,
        JsonValue::Object(members) => decimal(members@.len()) + " properties"@,
    }
}

/// The fact that describes one JSON node at a JSON Pointer.
pub open spec fn json_node_fact(v: JsonValue, pointer: Seq<char>, path: Seq<char>, source: Seq<char>, revision: RevisionView) -> FactView {
    FactView {
        adapter: "json"@,
        kind: json_kind(v),
        path,
        locator: "#"@ + pointer,
        text: json_text(v),
        source,
        revision,
        span: None,
    }
}

/// The facts of a JSON value in document order: the node itself, then its
/// elements by index, or its members by key.
pub open spec fn json_facts(v: JsonValue, pointer: Seq<char>, path: Seq<char>, source: Seq<char>, revision: RevisionView) -> Seq<FactView>
    decreases v, 0int,
{
    seq![json_node_fact(v, pointer, path, source, revision)] + match v {
        JsonValue::Array(items) => element_facts(items@, pointer, path, source, revision, items@.len() as int),
        JsonValue::Object(members) => member_facts(members@, pointer, path, source, revision, members@.len() as int),
        _ => Seq::empty(),
    }
}

/// The facts of the first `n` elements of an array.
pub open spec fn element_facts(items: Seq<JsonValue>, pointer: Seq<char>, path: Seq<char>, source: Seq<char>, revision: RevisionView, n: int) -> Seq<FactView>
    decreases items, n,
{
    if n <= 0 || n > items.len() {
        Seq::empty()
    } else {
        element_facts(items, pointer, path, source, revision, n - 1) + json_facts(
            items[n - 1],
            pointer + "/"@ + decimal((n - 1) as nat),
            path,
            source,
            revision,
        )
    }
}

/// The facts of the first `n` members of an object.
pub open spec fn member_facts(members: Seq<JsonMember>, pointer: Seq<char>, path: Seq<char>, source: Seq<char>, revision: RevisionView, n: int) -> Seq<FactView>
    decreases members, n,
{
    if n <= 0 || n > members.len() {
        Seq::empty()
    } else {
        member_facts(members, pointer, path, source, revision, n - 1) + json_facts(
            members[n - 1].value,
            pointer + "/"@ + escape_pointer(members[n - 1].key@),
            path,
            source,
            revision,
        )
    }
}

fn json_kind_name(value: &JsonValue) -> (r: &'static str)
    ensures
        r@ == json_kind(*value),
{
    match value {
        JsonValue::Null => "null",
        JsonValue::Bool(_) => "boolean",
        JsonValue::Number(_) => "number",
        JsonValue::Text(_) => "string",
        JsonValue::Array(_) => "array",
        JsonValue::Object(_) => "object",
    }
}

fn json_text_of(value: &JsonValue) -> (r: String)
    ensures
        r@ == json_text(*value),
{
    match value {
        JsonValue::Null => owned("null"),
        JsonValue::Bool(b) => if *b { owned("true") } else { owned("false") },
        JsonValue::Number(n) => n.clone(),
        JsonValue::Text(t) => t.clone(),
        JsonValue::Array(items) => {
            let mut r = String::new();
            push_decimal(&mut r, items.len());
            push_str(&mut r, " items");
            r
        },
        JsonValue::Object(members) => {
            let mut r = String::new();
            push_decimal(&mut r, members.len());
            push_str(&mut r, " properties");
            r
        },
    }
}

/// Records a fact for every node of a JSON value, in document order.
pub fn walk_json(value: &JsonValue, pointer: &str, path: &str, context: &AcquisitionContext, facts: &mut Vec<AcquiredFact>)
    ensures
        fact_views(final(facts)@) == fact_views(old(facts)@) + json_facts(*value, pointer@, path@, context.source@, context.revision@),
    decreases value,
{
    let ghost base = fact_views(old(facts)@);
    let mut locator = owned("#");
    push_str(&mut locator, pointer);
    facts.push(AcquiredFact {
        adapter: owned("json"),
        kind: owned(json_kind_name(value)),
        path: owned(path),
        locator,
        text: json_text_of(value),
        source: context.source.clone(),
        revision: clone_revision(&context.revision),
        span: None,
    });
    let ghost node = seq![json_node_fact(*value, pointer@, path@, context.source@, context.revision@)];
    assert(fact_views(facts@) =~= base + node);
    match value {
        JsonValue::Array(items) => {
            let mut i: usize = 0;
            while i < items.len()
                invariant
                    i <= items.len(),
                    *value == JsonValue::Array(*items),
                    fact_views(facts@) == base + node + element_facts(items@, pointer@, path@, context.source@, context.revision@, i as int),
                decreases items.len() - i,
            {
                let mut child = owned(pointer);
                push_str(&mut child, "/");
                push_decimal(&mut child, i);
                proof {
                    assert(decreases_to!(*value => (*value)->Array_0));
                    assert(decreases_to!((*value)->Array_0 => items@));
                    assert(decreases_to!(items@ => items@[i as int]));
                    assert(decreases_to!(*value => items@[i as int]));
                }
                walk_json(&items[i], child.as_str(), path, context, facts);
                assert(fact_views(facts@) =~= base + node + element_facts(items@, pointer@, path@, context.source@, context.revision@, i + 1));
                i = i + 1;
            }
            assert(fact_views(facts@) =~= base + json_facts(*value, pointer@, path@, context.source@, context.revision@));
        },
        JsonValue::Object(members) => {
            let mut i: usize = 0;
            while i < members.len()
                invariant
                    i <= members.len(),
                    *value == JsonValue::Object(*members),
                    fact_views(facts@) == base + node + member_facts(members@, pointer@, path@, context.source@, context.revision@, i as int),
                decreases members.len() - i,
            {
                let mut child = owned(pointer);
                push_str(&mut child, "/");
                push_escaped_segment(&mut child, members[i].key.as_str());
                proof {
                    assert(decreases_to!(*value => (*value)->Object_0));
                    assert(decreases_to!((*value)->Object_0 => members@));
                    assert(decreases_to!(members@ => members@[i as int]));
                    assert(decreases_to!(members@[i as int] => members@[i as int].value));
                    assert(decreases_to!(*value => members@[i as int].value));
                }
                walk_json(&members[i].value, child.as_str(), path, context, facts);
                assert(fact_views(facts@) =~= base + node + member_facts(members@, pointer@, path@, context.source@, context.revision@, i + 1));
                i = i + 1;
            }
            assert(fact_views(facts@) =~= base + json_facts(*value, pointer@, path@, context.source@, context.revision@));
        },
        _ => {
            assert(fact_views(facts@) =~= base + json_facts(*value, pointer@, path@, context.source@, context.revision@));
        },
    }
}


/// A fact that a syntax adapter (Go or Rust) reported: its kind name, its
/// text and its span.
pub struct SyntaxFact {
    pub kind: String,
    pub text: String,
    pub span: AcquiredSpan,
}

/// The fact that acquisition records for a syntax fact of a file.
pub open spec fn syntax_fact_view(adapter: Seq<char>, path: Seq<char>, context: AcquisitionContext, f: SyntaxFact) -> FactView {
    FactView {
        adapter,
        kind: f.kind@,
        path,
        locator: path + "#bytes="@ + decimal(f.span.start_byte as nat) + "-"@ + decimal(f.span.end_byte as nat),
        text: f.text@,
        source: context.source@,
        revision: context.revision@,
        span: Some(f.span),
    }
}

/// Records what a syntax adapter extracted from a file: a file with parse
/// diagnostics is refused as malformed; otherwise each fact becomes an
/// acquired fact located by its byte range, in the adapter's order.
pub fn syntax_facts(
    adapter: &str,
    label: &str,
    path: &str,
    context: &AcquisitionContext,
    extracted: &Vec<SyntaxFact>,
    diagnostic_count: usize,
) -> (r: Result<Vec<AcquiredFact>, AcquisitionError>)
    ensures
        diagnostic_count > 0 ==> (r matches Err(AcquisitionError::MalformedSyntax { adapter: a, path: p, diagnostic_count: n })
            && a@ == label@ && p@ == path@ && n == diagnostic_count),
        diagnostic_count == 0 ==> (r matches Ok(v) && fact_views(v@) == extracted@.map_values(
            |f: SyntaxFact| syntax_fact_view(adapter@, path@, *context, f),
        )),
{
    if diagnostic_count > 0 {
        return Err(AcquisitionError::MalformedSyntax { adapter: owned(label), path: owned(path), diagnostic_count });
    }
    let mut facts: Vec<AcquiredFact> = Vec::new();
    let mut i: usize = 0;
    while i < extracted.len()
        invariant
            i <= extracted@.len(),
            fact_views(facts@) == extracted@.take(i as int).map_values(
                |f: SyntaxFact| syntax_fact_view(adapter@, path@, *context, f),
            ),
        decreases extracted.len() - i,
    {
        let f = &extracted[i];
        let mut locator = owned(path);
        push_str(&mut locator, "#bytes=");
        push_decimal(&mut locator, f.span.start_byte);
        push_str(&mut locator, "-");
        push_decimal(&mut locator, f.span.end_byte);
        let fact = AcquiredFact {
            adapter: owned(adapter),
            kind: f.kind.clone(),
            path: owned(path),
            locator,
            text: f.text.clone(),
            source: context.source.clone(),
            revision: clone_revision(&context.revision),
            span: Some(f.span),
        };
        let ghost before = facts@;
        facts.push(fact);
        assert(fact_views(facts@) =~= extracted@.take(i as int + 1).map_values(
            |f: SyntaxFact| syntax_fact_view(adapter@, path@, *context, f),
        )) by {
            assert(facts@ == before.push(fact));
            assert(fact_views(before).len() == before.len());
            assert(extracted@.take(i as int).map_values(
                |f: SyntaxFact| syntax_fact_view(adapter@, path@, *context, f),
            ).len() == i);
            assert(before.len() == i);
            assert(fact@ == syntax_fact_view(adapter@, path@, *context, extracted@[i as int]));
            let lhs = fact_views(facts@);
            let old_rhs = extracted@.take(i as int).map_values(
                |f: SyntaxFact| syntax_fact_view(adapter@, path@, *context, f),
            );
            assert forall|j: int| 0 <= j < i implies lhs[j] == old_rhs[j] by {
                assert(facts@[j] == before[j]);
                assert(fact_views(before)[j] == before[j]@);
            }
        }
        i = i + 1;
    }
    assert(extracted@.take(extracted@.len() as int) =~= extracted@);
    Ok(facts)
}

/// Records the facts of a JSON file: comments are blanked out and the rest is
/// parsed; a file that is not JSON is refused with the parser's message.
pub fn json_file_facts(path: &str, context: &AcquisitionContext, bytes: &[u8]) -> (r: Result<
    Vec<AcquiredFact>,
    AcquisitionError,
>)
    ensures
        json_document(strip_json_comments_spec(bytes@)) matches Err(m) ==> (r matches Err(
            AcquisitionError::InvalidJson { path: p, message: x },
        ) && p@ == path@ && x@ == m),
        json_document(strip_json_comments_spec(bytes@)) matches Ok(v) ==> (r matches Ok(facts) && fact_views(facts@)
            == json_facts(v, ""@, path@, context.source@, context.revision@)),
{
    let stripped = strip_json_comments(bytes);
    let parsed = parse_json(stripped.as_slice());
    match parsed {
        Err(m) => Err(AcquisitionError::InvalidJson { path: owned(path), message: m }),
        Ok(value) => {
            let mut facts: Vec<AcquiredFact> = Vec::new();
            walk_json(&value, "", path, context, &mut facts);
            assert(fact_views(facts@) =~= Seq::<FactView>::empty() + json_facts(
                value,
                ""@,
                path@,
                context.source@,
                context.revision@,
            ));
            Ok(facts)
        },
    }
}

} // verus!
