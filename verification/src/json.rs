//! A JSON document model: what the analysis reads of parsed JSON.

use vstd::prelude::*;
use crate::order::{key_lt, text_key};
use crate::text::{chars_of, push_char, text_eq};

verus! {

/// A parsed JSON value. Numbers keep their textual rendering; object members are
/// kept in ascending key order, as a parser's sorted map yields them.
#[derive(Debug, PartialEq)]
pub enum JsonValue {
    Null,
    Bool(bool),
    Number(String),
    Text(String),
    Array(Vec<JsonValue>),
    Object(Vec<JsonMember>),
}

#[derive(Debug, PartialEq)]
pub struct JsonMember {
    pub key: String,
    pub value: JsonValue,
}

/// Object keys ascend strictly, at every level.
pub open spec fn json_wf(v: JsonValue) -> bool
    decreases v,
{
    match v {
        JsonValue::Array(items) => forall|i: int| 0 <= i < items@.len() ==> json_wf(#[trigger] items@[i]),
        JsonValue::Object(members) => {
            &&& keys_ascend(members@)
            &&& forall|i: int| 0 <= i < members@.len() ==> json_wf(#[trigger] members@[i].value)
        },
        _ => true,
    }
}

pub open spec fn keys_ascend(m: Seq<JsonMember>) -> bool {
    forall|i: int, j: int| 0 <= i < j < m.len() ==> key_lt(text_key(#[trigger] m[i].key@), text_key(#[trigger] m[j].key@))
}

pub open spec fn digit_char(d: nat) -> char {
    if d == 0 { '0' } else if d == 1 { '1' } else if d == 2 { '2' } else if d == 3 { '3' }
    else if d == 4 { '4' } else if d == 5 { '5' } else if d == 6 { '6' } else if d == 7 { '7' }
    else if d == 8 { '8' } else { '9' }
}

/// The decimal digits of `n`.
pub open spec fn decimal(n: nat) -> Seq<char>
    decreases n,
{
    if n < 10 {
        seq![digit_char(n)]
    } else {
        decimal(n / 10).push(digit_char(n % 10))
    }
}

fn digit_of(d: usize) -> (c: char)
    requires
        d < 10,
    ensures
        c == digit_char(d as nat),
{
    if d == 0 { '0' } else if d == 1 { '1' } else if d == 2 { '2' } else if d == 3 { '3' }
    else if d == 4 { '4' } else if d == 5 { '5' } else if d == 6 { '6' } else if d == 7 { '7' }
    else if d == 8 { '8' } else { '9' }
}

/// Appends the decimal digits of `n`.
pub fn push_decimal(s: &mut String, n: usize)
    ensures
        final(s)@ == old(s)@ + decimal(n as nat),
    decreases n,
{
    if n >= 10 {
        push_decimal(s, n / 10);
    }
    push_char(s, digit_of(n % 10));
    assert(final(s)@ =~= old(s)@ + decimal(n as nat));
}

/// JSON Pointer escaping of one segment: `~` becomes `~0` and `/` becomes `~1`.
pub open spec fn escape_pointer(s: Seq<char>) -> Seq<char>
    decreases s.len(),
{
    if s.len() == 0 {
        Seq::empty()
    } else {
        escape_pointer(s.drop_last()) + escape_char(s.last())
    }
}

pub open spec fn escape_char(c: char) -> Seq<char> {
    if c == '~' {
        seq!['~', '0']
    } else if c == '/' {
        seq!['~', '1']
    } else {
        seq![c]
    }
}

/// Appends the JSON Pointer escaping of a segment.
pub fn push_escaped_segment(out: &mut String, segment: &str)
    ensures
        final(out)@ == old(out)@ + escape_pointer(segment@),
{
    let ghost start = out@;
    for c in it: segment.chars()
        invariant
            it.seq() == segment@,
            out@ == start + escape_pointer(segment@.take(it.index() as int)),
    {
        let ghost i = it.index();
        assert(segment@.take(i + 1).drop_last() =~= segment@.take(i as int));
        if c == '~' {
            push_char(out, '~');
            push_char(out, '0');
        } else if c == '/' {
            push_char(out, '~');
            push_char(out, '1');
        } else {
            push_char(out, c);
        }
        assert(out@ =~= start + escape_pointer(segment@.take(i + 1)));
    }
    assert(segment@.take(segment@.len() as int) =~= segment@);
}

/// `segment` with `~` escaped as `~0` and `/` as `~1`.
pub fn escape_pointer_segment(segment: &str) -> (r: String)
    ensures
        r@ == escape_pointer(segment@),
{
    let mut r = String::new();
    push_escaped_segment(&mut r, segment);
    r
}

/// The value of the first member named `key`.
pub open spec fn member_value(ms: Seq<JsonMember>, key: Seq<char>) -> Option<JsonValue>
    decreases ms.len(),
{
    if ms.len() == 0 {
        None
    } else if ms[0].key@ == key {
        Some(ms[0].value)
    } else {
        member_value(ms.drop_first(), key)
    }
}

/// A found member value is the value of some member.
pub proof fn lemma_member_value_index(ms: Seq<JsonMember>, key: Seq<char>)
    ensures
        member_value(ms, key) matches Some(v) ==> exists|i: int| 0 <= i < ms.len() && #[trigger] ms[i].value == v,
    decreases ms.len(),
{
    if ms.len() > 0 && ms[0].key@ != key {
        lemma_member_value_index(ms.drop_first(), key);
        if member_value(ms, key) is Some {
            let v = member_value(ms, key)->Some_0;
            let i = choose|i: int| 0 <= i < ms.drop_first().len() && #[trigger] ms.drop_first()[i].value == v;
            assert(ms[i + 1].value == v);
        }
    } else if ms.len() > 0 {
        assert(ms[0].value == member_value(ms, key)->Some_0);
    }
}

/// Looks up the first member named `key`.
pub fn get_member<'a>(ms: &'a Vec<JsonMember>, key: &str) -> (r: Option<&'a JsonValue>)
    ensures
        match r {
            Some(v) => member_value(ms@, key@) == Some(*v),
            None => member_value(ms@, key@) is None,
        },
{
    let mut i: usize = 0;
    assert(ms@.skip(0) =~= ms@);
    while i < ms.len()
        invariant
            i <= ms.len(),
            member_value(ms@, key@) == member_value(ms@.skip(i as int), key@),
        decreases ms.len() - i,
    {
        assert(ms@.skip(i as int)[0] == ms@[i as int]);
        assert(ms@.skip(i as int).drop_first() =~= ms@.skip(i + 1));
        if text_eq(ms[i].key.as_str(), key) {
            return Some(&ms[i].value);
        }
        i = i + 1;
    }
    None
}

/// The `$ref` string of an object's own members, if it has one.
pub open spec fn own_ref(ms: Seq<JsonMember>) -> Set<Seq<char>> {
    match member_value(ms, "$ref"@) {
        Some(JsonValue::Text(t)) => set![t@],
        _ => Set::empty(),
    }
}

/// Every `$ref` string that occurs in a value.
pub open spec fn refs(v: JsonValue) -> Set<Seq<char>>
    decreases v, 0int,
{
    match v {
        JsonValue::Array(items) => item_refs(items@, items@.len() as int),
        JsonValue::Object(members) => own_ref(members@) + member_refs(members@, members@.len() as int),
        _ => Set::empty(),
    }
}

/// The `$ref` strings of the first `n` items.
pub open spec fn item_refs(items: Seq<JsonValue>, n: int) -> Set<Seq<char>>
    decreases items, n,
{
    if n <= 0 || n > items.len() {
        Set::empty()
    } else {
        item_refs(items, n - 1) + refs(items[n - 1])
    }
}

/// The `$ref` strings of the values of the first `n` members.
pub open spec fn member_refs(ms: Seq<JsonMember>, n: int) -> Set<Seq<char>>
    decreases ms, n,
{
    if n <= 0 || n > ms.len() {
        Set::empty()
    } else {
        member_refs(ms, n - 1) + refs(ms[n - 1].value)
    }
}

/// A value holds finitely many `$ref` strings.
pub proof fn lemma_refs_finite(v: JsonValue)
    ensures
        refs(v).finite(),
    decreases v, 0int,
{
    match v {
        JsonValue::Array(items) => lemma_item_refs_finite(items@, items@.len() as int),
        JsonValue::Object(members) => lemma_member_refs_finite(members@, members@.len() as int),
        _ => {},
    }
}

proof fn lemma_item_refs_finite(items: Seq<JsonValue>, n: int)
    ensures
        item_refs(items, n).finite(),
    decreases items, n,
{
    if 0 < n <= items.len() {
        lemma_item_refs_finite(items, n - 1);
        lemma_refs_finite(items[n - 1]);
    }
}

proof fn lemma_member_refs_finite(ms: Seq<JsonMember>, n: int)
    ensures
        member_refs(ms, n).finite(),
    decreases ms, n,
{
    if 0 < n <= ms.len() {
        lemma_member_refs_finite(ms, n - 1);
        lemma_refs_finite(ms[n - 1].value);
    }
}

proof fn lemma_item_refs_sub(items: Seq<JsonValue>, n: int, i: int)
    requires
        0 <= i < n <= items.len(),
    ensures
        refs(items[i]).subset_of(item_refs(items, n)),
    decreases n,
{
    if i < n - 1 {
        lemma_item_refs_sub(items, n - 1, i);
    }
}

proof fn lemma_member_refs_sub(ms: Seq<JsonMember>, n: int, i: int)
    requires
        0 <= i < n <= ms.len(),
    ensures
        refs(ms[i].value).subset_of(member_refs(ms, n)),
    decreases n,
{
    if i < n - 1 {
        lemma_member_refs_sub(ms, n - 1, i);
    }
}

/// The `$ref` strings of an array item occur in the array.
pub proof fn lemma_item_refs(v: JsonValue, i: int)
    requires
        v is Array,
        0 <= i < v->Array_0@.len(),
    ensures
        refs(v->Array_0@[i]).subset_of(refs(v)),
{
    lemma_item_refs_sub(v->Array_0@, v->Array_0@.len() as int, i);
}

/// The `$ref` strings of a member value occur in the object.
pub proof fn lemma_member_refs(v: JsonValue, i: int)
    requires
        v is Object,
        0 <= i < v->Object_0@.len(),
    ensures
        refs(v->Object_0@[i].value).subset_of(refs(v)),
{
    lemma_member_refs_sub(v->Object_0@, v->Object_0@.len() as int, i);
}

/// The `$ref` strings of a looked-up member value occur in the object.
pub proof fn lemma_member_value_refs(v: JsonValue, key: Seq<char>)
    requires
        v is Object,
    ensures
        member_value(v->Object_0@, key) matches Some(x) ==> refs(x).subset_of(refs(v)),
{
    lemma_member_value_index(v->Object_0@, key);
    if member_value(v->Object_0@, key) is Some {
        let x = member_value(v->Object_0@, key)->Some_0;
        let i = choose|i: int| 0 <= i < v->Object_0@.len() && #[trigger] v->Object_0@[i].value == x;
        lemma_member_refs(v, i);
    }
}

// ---- JSON Pointer (RFC 6901) ----

/// `str::split('/')`, with `cur` the part of the current piece read so far.
pub open spec fn split_slash(cur: Seq<char>, rest: Seq<char>) -> Seq<Seq<char>>
    decreases rest.len(),
{
    if rest.len() == 0 {
        seq![cur]
    } else if rest[0] == '/' {
        seq![cur] + split_slash(Seq::empty(), rest.drop_first())
    } else {
        split_slash(cur.push(rest[0]), rest.drop_first())
    }
}

/// `str::replace` of the two-character pattern `[a, b]` by `r`, left to right.
pub open spec fn replace_pair(s: Seq<char>, a: char, b: char, r: char) -> Seq<char>
    decreases s.len(),
{
    if s.len() == 0 {
        s
    } else if s.len() >= 2 && s[0] == a && s[1] == b {
        seq![r] + replace_pair(s.skip(2), a, b, r)
    } else {
        seq![s[0]] + replace_pair(s.drop_first(), a, b, r)
    }
}

/// A reference token with `~1` read as `/` and then `~0` as `~`.
pub open spec fn unescape_token(t: Seq<char>) -> Seq<char> {
    replace_pair(replace_pair(t, '~', '1', '/'), '~', '0', '~')
}

/// The reference tokens of a pointer that starts with `/`.
pub open spec fn pointer_tokens(p: Seq<char>) -> Seq<Seq<char>> {
    split_slash(Seq::empty(), p.drop_first()).map_values(|t: Seq<char>| unescape_token(t))
}

pub open spec fn is_digit(c: char) -> bool {
    '0' <= c <= '9'
}

pub open spec fn digits_value(t: Seq<char>) -> nat
    decreases t.len(),
{
    if t.len() == 0 {
        0
    } else {
        digits_value(t.drop_last()) * 10 + ((t.last() as u32) - ('0' as u32)) as nat
    }
}

/// An array index token: decimal digits without a leading zero, within `usize`.
pub open spec fn parse_index(t: Seq<char>) -> Option<nat> {
    if t.len() == 0 || (exists|i: int| 0 <= i < t.len() && !is_digit(#[trigger] t[i])) || (t[0] == '0' && t.len() != 1)
        || digits_value(t) > usize::MAX {
        None
    } else {
        Some(digits_value(t))
    }
}

/// One step of pointer resolution.
pub open spec fn pointer_step(v: JsonValue, token: Seq<char>) -> Option<JsonValue> {
    match v {
        JsonValue::Object(ms) => member_value(ms@, token),
        JsonValue::Array(items) => match parse_index(token) {
            Some(i) => if i < items@.len() { Some(items@[i as int]) } else { None },
            None => None,
        },
        _ => None,
    }
}

/// Resolution of reference tokens from a value.
pub open spec fn resolve_tokens(v: JsonValue, tokens: Seq<Seq<char>>) -> Option<JsonValue>
    decreases tokens.len(),
{
    if tokens.len() == 0 {
        Some(v)
    } else {
        match pointer_step(v, tokens[0]) {
            Some(c) => resolve_tokens(c, tokens.drop_first()),
            None => None,
        }
    }
}

/// The `$ref` strings of a resolved value occur in the value it was resolved from.
pub proof fn lemma_resolve_refs(v: JsonValue, tokens: Seq<Seq<char>>)
    ensures
        resolve_tokens(v, tokens) matches Some(t) ==> refs(t).subset_of(refs(v)),
    decreases tokens.len(),
{
    if tokens.len() > 0 {
        match pointer_step(v, tokens[0]) {
            Some(c) => {
                lemma_resolve_refs(c, tokens.drop_first());
                match v {
                    JsonValue::Object(ms) => lemma_member_value_refs(v, tokens[0]),
                    JsonValue::Array(items) => {
                        let i = parse_index(tokens[0])->Some_0;
                        lemma_item_refs(v, i as int);
                    },
                    _ => {},
                }
            },
            None => {},
        }
    }
}

fn split_pointer(p: &[char]) -> (r: Vec<Vec<char>>)
    requires
        p@.len() > 0,
    ensures
        r@.map_values(|t: Vec<char>| t@) == split_slash(Seq::empty(), p@.drop_first()),
{
    let ghost s = p@.drop_first();
    let mut toks: Vec<Vec<char>> = Vec::new();
    let mut cur: Vec<char> = Vec::new();
    let mut i: usize = 1;
    assert(p@.skip(1) =~= s);
    while i < p.len()
        invariant
            1 <= i <= p.len(),
            s == p@.drop_first(),
            toks@.map_values(|t: Vec<char>| t@) + split_slash(cur@, p@.skip(i as int)) == split_slash(Seq::empty(), s),
        decreases p.len() - i,
    {
        let ghost rest = p@.skip(i as int);
        assert(rest.drop_first() =~= p@.skip(i + 1));
        assert(rest[0] == p[i as int]);
        if p[i] == '/' {
            let ghost before = toks@;
            toks.push(cur);
            cur = Vec::new();
            assert(toks@.map_values(|t: Vec<char>| t@) =~= before.map_values(|t: Vec<char>| t@).push(
                before.push(toks@.last()).last()@,
            ));
            assert(seq![toks@.last()@] + split_slash(Seq::empty(), p@.skip(i + 1)) == split_slash(toks@.last()@, rest));
            assert(toks@.map_values(|t: Vec<char>| t@) + split_slash(cur@, p@.skip(i + 1)) =~= before.map_values(
                |t: Vec<char>| t@,
            ) + (seq![toks@.last()@] + split_slash(cur@, p@.skip(i + 1))));
        } else {
            let ghost old_cur = cur@;
            cur.push(p[i]);
            assert(cur@ == old_cur.push(rest[0]));
        }
        i = i + 1;
    }
    let ghost before = toks@;
    assert(p@.skip(i as int).len() == 0);
    toks.push(cur);
    assert(toks@.map_values(|t: Vec<char>| t@) =~= before.map_values(|t: Vec<char>| t@) + seq![toks@.last()@]);
    toks
}

fn replace_pair_exec(s: &Vec<char>, a: char, b: char, r: char) -> (out: Vec<char>)
    ensures
        out@ == replace_pair(s@, a, b, r),
{
    let mut out: Vec<char> = Vec::new();
    let mut i: usize = 0;
    assert(s@.skip(0) =~= s@);
    while i < s.len()
        invariant
            i <= s.len(),
            out@ + replace_pair(s@.skip(i as int), a, b, r) == replace_pair(s@, a, b, r),
        decreases s.len() - i,
    {
        let ghost rest = s@.skip(i as int);
        let ghost before = out@;
        if i + 1 < s.len() && s[i] == a && s[i + 1] == b {
            assert(rest.skip(2) =~= s@.skip(i + 2));
            out.push(r);
            assert(out@ + replace_pair(s@.skip(i + 2), a, b, r) =~= before + (seq![r] + replace_pair(rest.skip(2), a, b, r)));
            i = i + 2;
        } else {
            assert(rest.drop_first() =~= s@.skip(i + 1));
            assert(rest[0] == s@[i as int]);
            out.push(s[i]);
            assert(out@ + replace_pair(s@.skip(i + 1), a, b, r) =~= before + (seq![rest[0]] + replace_pair(rest.drop_first(), a, b, r)));
            i = i + 1;
        }
    }
    assert(out@ + replace_pair(s@.skip(i as int), a, b, r) =~= out@);
    out
}

proof fn lemma_digits_prefix(t: Seq<char>, k: int)
    requires
        0 <= k <= t.len(),
    ensures
        digits_value(t.take(k)) <= digits_value(t),
    decreases t.len() - k,
{
    if k < t.len() {
        lemma_digits_prefix(t, k + 1);
        assert(t.take(k + 1).drop_last() =~= t.take(k));
    } else {
        assert(t.take(k) =~= t);
    }
}

fn parse_index_exec(t: &Vec<char>) -> (r: Option<usize>)
    ensures
        match r {
            Some(i) => parse_index(t@) == Some(i as nat),
            None => parse_index(t@) is None,
        },
{
    if t.len() == 0 {
        return None;
    }
    if t[0] == '0' && t.len() != 1 {
        return None;
    }
    let mut value: usize = 0;
    let mut i: usize = 0;
    while i < t.len()
        invariant
            i <= t.len(),
            value == digits_value(t@.take(i as int)),
            forall|k: int| 0 <= k < i ==> is_digit(#[trigger] t@[k]),
        decreases t.len() - i,
    {
        let c = t[i];
        assert(t@.take(i + 1).drop_last() =~= t@.take(i as int));
        assert(t@.take(i + 1).last() == c);
        if !('0' <= c && c <= '9') {
            assert(!is_digit(t@[i as int]));
            return None;
        }
        let d = (c as u32 - '0' as u32) as usize;
        match value.checked_mul(10) {
            Some(m) => match m.checked_add(d) {
                Some(n) => {
                    value = n;
                },
                None => {
                    proof {
                        lemma_digits_prefix(t@, i + 1);
                    }
                    return None;
                },
            },
            None => {
                proof {
                    lemma_digits_prefix(t@, i + 1);
                }
                return None;
            },
        }
        i = i + 1;
    }
    assert(t@.take(t.len() as int) =~= t@);
    Some(value)
}

/// Resolves a JSON Pointer that starts with `/` from a value.
pub fn resolve_pointer<'a>(root: &'a JsonValue, pointer: &str) -> (r: Option<&'a JsonValue>)
    requires
        pointer@.len() > 0,
    ensures
        match r {
            Some(v) => resolve_tokens(*root, pointer_tokens(pointer@)) == Some(*v),
            None => resolve_tokens(*root, pointer_tokens(pointer@)) is None,
        },
{
    let chars = chars_of(pointer);
    let pieces = split_pointer(chars.as_slice());
    let ghost tokens = pointer_tokens(pointer@);
    assert(tokens.len() == pieces@.len());
    let mut target: &JsonValue = root;
    let mut i: usize = 0;
    assert(tokens.skip(0) =~= tokens);
    while i < pieces.len()
        invariant
            i <= pieces.len(),
            tokens == pointer_tokens(pointer@),
            tokens.len() == pieces@.len(),
            forall|k: int| 0 <= k < pieces@.len() ==> tokens[k] == unescape_token(#[trigger] pieces@[k]@),
            resolve_tokens(*root, tokens) == resolve_tokens(*target, tokens.skip(i as int)),
        decreases pieces.len() - i,
    {
        assert(tokens.skip(i as int)[0] == tokens[i as int]);
        assert(tokens.skip(i as int).drop_first() =~= tokens.skip(i + 1));
        let once = replace_pair_exec(&pieces[i], '~', '1', '/');
        let token = replace_pair_exec(&once, '~', '0', '~');
        assert(token@ == tokens[i as int]);
        let next: Option<&JsonValue> = match target {
            JsonValue::Object(ms) => {
                let key = string_of_chars(&token);
                get_member(ms, key.as_str())
            },
            JsonValue::Array(items) => match parse_index_exec(&token) {
                Some(k) => if k < items.len() { Some(&items[k]) } else { None },
                None => None,
            },
            _ => None,
        };
        match next {
            Some(n) => {
                target = n;
            },
            None => {
                return None;
            },
        }
        i = i + 1;
    }
    Some(target)
}

fn string_of_chars(v: &Vec<char>) -> (r: String)
    ensures
        r@ == v@,
{
    crate::text::string_of(v.as_slice())
}


// ---- parsing ----

#[verifier::external_type_specification]
#[verifier::external_body]
pub struct ExParsedValue(serde_json::Value);

/// What `serde_json` makes of some bytes: the document, or the parser's message.
pub uninterp spec fn json_document(bytes: Seq<u8>) -> Result<JsonValue, Seq<char>>;

pub open spec fn json_result_view(r: Result<JsonValue, String>) -> Result<JsonValue, Seq<char>> {
    match r {
        Ok(v) => Ok(v),
        Err(m) => Err(m@),
    }
}

/// One `serde_json::Value` as a `JsonValue`, variant for variant.
#[verifier::external_body]
fn value_of(value: &serde_json::Value) -> JsonValue {
    match value {
        serde_json::Value::Null => JsonValue::Null,
        serde_json::Value::Bool(b) => JsonValue::Bool(*b),
        serde_json::Value::Number(n) => JsonValue::Number(n.to_string()),
        serde_json::Value::String(t) => JsonValue::Text(t.clone()),
        serde_json::Value::Array(items) => JsonValue::Array(items.iter().map(value_of).collect()),
        serde_json::Value::Object(members) => JsonValue::Object(
            members.iter().map(|(key, v)| JsonMember { key: key.clone(), value: value_of(v) }).collect(),
        ),
    }
}

/// `serde_json::from_slice::<serde_json::Value>`: the document the bytes hold
/// (object members in the parser's ascending key order), or the parser's
/// message. The result is named `json_document`; nothing more is claimed.
#[verifier::external_body]
pub(crate) fn parse_json(bytes: &[u8]) -> (r: Result<JsonValue, String>)
    ensures
        json_result_view(r) == json_document(bytes@),
{
    serde_json::from_slice::<serde_json::Value>(bytes).map(|value| value_of(&value)).map_err(|error| error.to_string())
}

} // verus!
