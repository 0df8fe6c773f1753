//! How serde names fields and variants: `rename`, `rename_all` and its case rules.

use vstd::prelude::*;
use crate::text::{
    ascii_upper, char_is_white_space, char_to_lower, char_to_upper, concat_all, is_ascii_lower,
    is_ascii_upper, is_white_space, joined, lemma_trim_start_skip, lower_text, to_lower, to_upper,
    trim_start, upper_text,
};

verus! {

/// The first position at or after `i` where `pat` occurs in `s`.
pub open spec fn find_from(s: Seq<char>, pat: Seq<char>, i: int) -> Option<int>
    decreases s.len() + 1 - i,
{
    if i < 0 || i + pat.len() > s.len() {
        None
    } else if s.subrange(i, i + pat.len()) == pat {
        Some(i)
    } else {
        find_from(s, pat, i + 1)
    }
}

/// `str::find`: the first position where `pat` occurs.
pub open spec fn find(s: Seq<char>, pat: Seq<char>) -> Option<int> {
    find_from(s, pat, 0)
}

/// A found position is a real occurrence.
pub proof fn lemma_find_from_some(s: Seq<char>, pat: Seq<char>, i: int)
    ensures
        find_from(s, pat, i) matches Some(k) ==> i <= k && 0 <= k && k + pat.len() <= s.len() && s.subrange(k, k + pat.len()) == pat,
    decreases s.len() + 1 - i,
{
    if !(i < 0 || i + pat.len() > s.len()) && s.subrange(i, i + pat.len()) != pat {
        lemma_find_from_some(s, pat, i + 1);
    }
}

fn matches_at(s: &[char], pat: &[char], i: usize) -> (r: bool)
    requires
        i + pat@.len() <= s@.len(),
    ensures
        r == (s@.subrange(i as int, i + pat@.len()) == pat@),
{
    let n = s.len();
    let mut k: usize = 0;
    while k < pat.len()
        invariant
            k <= pat.len(),
            n == s@.len(),
            i + pat@.len() <= s@.len(),
            forall|q: int| 0 <= q < k ==> s@[i + q] == pat@[q],
        decreases pat.len() - k,
    {
        if s[i + k] != pat[k] {
            assert(s@.subrange(i as int, i + pat@.len())[k as int] != pat@[k as int]);
            return false;
        }
        k = k + 1;
    }
    assert(s@.subrange(i as int, i + pat@.len()) =~= pat@);
    true
}

/// `str::find` on characters.
pub fn find_exec(s: &[char], pat: &[char]) -> (r: Option<usize>)
    ensures
        match r {
            Some(i) => find(s@, pat@) == Some(i as int),
            None => find(s@, pat@) is None,
        },
{
    let n = s.len();
    if pat.len() > n {
        return None;
    }
    let last = n - pat.len();
    let mut i: usize = 0;
    while i <= last
        invariant
            last == s@.len() - pat@.len(),
            n == s@.len(),
            i <= last + 1,
            find(s@, pat@) == find_from(s@, pat@, i as int),
        decreases last + 1 - i,
    {
        if matches_at(s, pat, i) {
            return Some(i);
        }
        if pat.len() == 0 {
            assert(s@.subrange(i as int, i as int) =~= pat@);
        }
        i = i + 1;
    }
    None
}

fn skip_chars(s: &[char], from: usize) -> (r: Vec<char>)
    requires
        from <= s@.len(),
    ensures
        r@ == s@.skip(from as int),
{
    let mut r: Vec<char> = Vec::new();
    let mut k: usize = from;
    while k < s.len()
        invariant
            from <= k <= s.len(),
            r@ == s@.subrange(from as int, k as int),
        decreases s.len() - k,
    {
        r.push(s[k]);
        assert(s@.subrange(from as int, k + 1) =~= s@.subrange(from as int, k as int).push(s@[k as int]));
        k = k + 1;
    }
    assert(s@.subrange(from as int, s@.len() as int) =~= s@.skip(from as int));
    r
}

fn take_chars(s: &[char], n: usize) -> (r: Vec<char>)
    requires
        n <= s@.len(),
    ensures
        r@ == s@.take(n as int),
{
    let mut r: Vec<char> = Vec::new();
    let mut k: usize = 0;
    while k < n
        invariant
            k <= n,
            n <= s@.len(),
            r@ == s@.take(k as int),
        decreases n - k,
    {
        r.push(s[k]);
        assert(s@.take(k + 1) =~= s@.take(k as int).push(s@[k as int]));
        k = k + 1;
    }
    r
}

/// The quoted value that follows `key = ` in a serde attribute: `None` when the
/// text does not mention serde, or has no such key, `=` or quoted value.
pub open spec fn serde_argument(text: Seq<char>, key: Seq<char>) -> Option<Seq<char>> {
    if find(text, "serde"@) is None {
        None
    } else {
        match find(text, key) {
            None => None,
            Some(k) => {
                let rest = text.skip(k + key.len());
                match find(rest, seq!['=']) {
                    None => None,
                    Some(e) => {
                        let value = trim_start(rest.skip(e + 1));
                        if value.len() == 0 || value[0] != '"' {
                            None
                        } else {
                            match find(value.drop_first(), seq!['"']) {
                                None => None,
                                Some(end) => Some(value.drop_first().take(end)),
                            }
                        }
                    },
                }
            },
        }
    }
}

/// Reads the quoted value of `key` in a serde attribute.
pub fn serde_string_argument(text: &[char], key: &[char]) -> (r: Option<Vec<char>>)
    ensures
        match r {
            Some(v) => serde_argument(text@, key@) == Some(v@),
            None => serde_argument(text@, key@) is None,
        },
{
    let tn = text.len();
    let serde = crate::text::chars_of("serde");
    if find_exec(text, serde.as_slice()).is_none() {
        return None;
    }
    let k = match find_exec(text, key) {
        Some(k) => k,
        None => {
            return None;
        },
    };
    proof {
        lemma_find_from_some(text@, key@, 0);
        assert(k + key@.len() <= text@.len());
    }
    let rest = skip_chars(text, k + key.len());
    assert(seq!['='] =~= (&['='])@);
    let equals = match find_exec(rest.as_slice(), &['=']) {
        Some(e) => e,
        None => {
            return None;
        },
    };
    assert(seq!['='] =~= (&['='])@);
    proof {
        lemma_find_from_some(rest@, seq!['='], 0);
    }
    let after = skip_chars(rest.as_slice(), equals + 1);
    let mut i: usize = 0;
    while i < after.len() && char_is_white_space(after[i])
        invariant
            i <= after.len(),
            forall|q: int| 0 <= q < i ==> is_white_space(#[trigger] after@[q]),
        decreases after.len() - i,
    {
        i = i + 1;
    }
    proof {
        lemma_trim_start_skip(after@, i as int);
        assert(after@.skip(i as int).len() > 0 ==> !is_white_space(after@.skip(i as int)[0]));
    }
    let value = skip_chars(after.as_slice(), i);
    assert(trim_start(value@) == value@);
    if value.len() == 0 || value[0] != '"' {
        return None;
    }
    let inner = skip_chars(value.as_slice(), 1);
    assert(inner@ =~= value@.drop_first());
    assert(seq!['"'] =~= (&['"'])@);
    let end = match find_exec(inner.as_slice(), &['"']) {
        Some(e) => e,
        None => {
            assert(seq!['"'] =~= (&['"'])@);
            return None;
        },
    };
    assert(seq!['"'] =~= (&['"'])@);
    proof {
        lemma_find_from_some(inner@, seq!['"'], 0);
    }
    Some(take_chars(inner.as_slice(), end))
}

// ---- case rules ----

/// Where a new word starts before the character at `i`: an ASCII uppercase
/// letter after a lowercase one, or before one, in the middle of a word.
pub open spec fn word_boundary(chars: Seq<char>, i: int, current: Seq<char>) -> bool {
    &&& is_ascii_upper(chars[i])
    &&& current.len() > 0
    &&& ((i >= 1 && is_ascii_lower(chars[i - 1])) || (i + 1 < chars.len() && is_ascii_lower(chars[i + 1])))
}

/// The words finished and the word in progress after reading `n` characters.
pub open spec fn split_upto(chars: Seq<char>, n: int) -> (Seq<Seq<char>>, Seq<char>)
    decreases n,
{
    if n <= 0 || n > chars.len() {
        (Seq::empty(), Seq::empty())
    } else {
        let (words, current) = split_upto(chars, n - 1);
        let c = chars[n - 1];
        if c == '_' || c == '-' {
            if current.len() > 0 {
                (words.push(lower_text(current)), Seq::empty())
            } else {
                (words, current)
            }
        } else if word_boundary(chars, n - 1, current) {
            (words.push(lower_text(current)), seq![c])
        } else {
            (words, current.push(c))
        }
    }
}

/// The lowercase words of an identifier, split at `_`, `-` and case changes.
pub open spec fn split_words(chars: Seq<char>) -> Seq<Seq<char>> {
    let (words, current) = split_upto(chars, chars.len() as int);
    if current.len() > 0 {
        words.push(lower_text(current))
    } else {
        words
    }
}

fn push_lower(words: &mut Vec<Vec<char>>, current: &Vec<char>)
    ensures
        final(words)@.map_values(|w: Vec<char>| w@) == old(words)@.map_values(|w: Vec<char>| w@).push(lower_text(current@)),
{
    let ghost before = words@;
    let w = to_lower(current.as_slice());
    words.push(w);
    assert(words@.map_values(|w: Vec<char>| w@) =~= before.map_values(|w: Vec<char>| w@).push(lower_text(current@)));
}

/// Splits an identifier into lowercase words.
pub fn split_words_exec(chars: &[char]) -> (r: Vec<Vec<char>>)
    ensures
        r@.map_values(|w: Vec<char>| w@) == split_words(chars@),
{
    let mut words: Vec<Vec<char>> = Vec::new();
    let mut current: Vec<char> = Vec::new();
    let mut i: usize = 0;
    while i < chars.len()
        invariant
            i <= chars.len(),
            (words@.map_values(|w: Vec<char>| w@), current@) == split_upto(chars@, i as int),
        decreases chars.len() - i,
    {
        let c = chars[i];
        if c == '_' || c == '-' {
            if current.len() > 0 {
                push_lower(&mut words, &current);
                current = Vec::new();
            }
        } else {
            let boundary = ('A' <= c && c <= 'Z') && current.len() > 0 && ((i >= 1 && 'a' <= chars[i - 1]
                && chars[i - 1] <= 'z') || (i + 1 < chars.len() && 'a' <= chars[i + 1] && chars[i + 1] <= 'z'));
            assert(boundary == word_boundary(chars@, i as int, current@));
            if boundary {
                push_lower(&mut words, &current);
                current = Vec::new();
            }
            current.push(c);
        }
        proof {
            assert(current@ =~= split_upto(chars@, i + 1).1);
        }
        i = i + 1;
    }
    if current.len() > 0 {
        push_lower(&mut words, &current);
    }
    words
}

/// `word` with its first character in ASCII uppercase.
pub open spec fn capitalize(w: Seq<char>) -> Seq<char> {
    if w.len() == 0 {
        w
    } else {
        seq![ascii_upper(w[0])] + w.drop_first()
    }
}

pub open spec fn capitalize_fn() -> spec_fn(Seq<char>) -> Seq<char> {
    |w: Seq<char>| capitalize(w)
}

/// A serde `rename_all` rule applied to a name; `None` for a name without words
/// or an unknown rule.
pub open spec fn case_rule(value: Seq<char>, rule: Seq<char>) -> Option<Seq<char>> {
    let words = split_words(value);
    if words.len() == 0 {
        None
    } else if rule == "kebab-case"@ {
        Some(joined(words, "-"@))
    } else if rule == "snake_case"@ {
        Some(joined(words, "_"@))
    } else if rule == "SCREAMING_SNAKE_CASE"@ {
        Some(upper_text(joined(words, "_"@)))
    } else if rule == "lowercase"@ {
        Some(concat_all(words))
    } else if rule == "UPPERCASE"@ {
        Some(upper_text(concat_all(words)))
    } else if rule == "camelCase"@ {
        Some(words[0] + concat_all(words.drop_first().map_values(capitalize_fn())))
    } else if rule == "PascalCase"@ {
        Some(concat_all(words.map_values(capitalize_fn())))
    } else {
        None
    }
}

fn chars_equal(a: &[char], b: &str) -> (r: bool)
    ensures
        r == (a@ == b@),
{
    let bs = crate::text::chars_of(b);
    crate::text::chars_eq(a, bs.as_slice())
}

fn joined_chars(words: &Vec<Vec<char>>, sep: char) -> (r: Vec<char>)
    requires
        words@.len() > 0,
    ensures
        r@ == joined(words@.map_values(|w: Vec<char>| w@), seq![sep]),
{
    let ghost ws = words@.map_values(|w: Vec<char>| w@);
    let mut r: Vec<char> = Vec::new();
    let mut i: usize = 0;
    while i < words.len()
        invariant
            i <= words.len(),
            ws == words@.map_values(|w: Vec<char>| w@),
            r@ == joined(ws.take(i as int), seq![sep]),
        decreases words.len() - i,
    {
        let ghost before = r@;
        if i > 0 {
            r.push(sep);
        }
        let w = &words[i];
        let mut k: usize = 0;
        let ghost mid = r@;
        while k < w.len()
            invariant
                k <= w.len(),
                r@ == mid + w@.take(k as int),
            decreases w.len() - k,
        {
            r.push(w[k]);
            assert(w@.take(k + 1) =~= w@.take(k as int).push(w@[k as int]));
            k = k + 1;
        }
        assert(w@.take(w.len() as int) =~= w@);
        assert(ws.take(i + 1).drop_last() =~= ws.take(i as int));
        assert(ws.take(i + 1).last() == w@);
        if i == 0 {
            assert(ws.take(0).len() == 0);
            assert(r@ =~= joined(ws.take(1), seq![sep]));
        } else {
            assert(r@ =~= joined(ws.take(i + 1), seq![sep]));
        }
        i = i + 1;
    }
    assert(ws.take(words.len() as int) =~= ws);
    r
}

fn concat_mapped(words: &Vec<Vec<char>>, from: usize, capital: bool) -> (r: Vec<char>)
    requires
        from <= words@.len(),
    ensures
        capital ==> r@ == concat_all(words@.map_values(|w: Vec<char>| w@).skip(from as int).map_values(capitalize_fn())),
        !capital ==> r@ == concat_all(words@.map_values(|w: Vec<char>| w@).skip(from as int)),
{
    let ghost ws = words@.map_values(|w: Vec<char>| w@).skip(from as int);
    let ghost target = if capital { ws.map_values(capitalize_fn()) } else { ws };
    let mut r: Vec<char> = Vec::new();
    let mut i: usize = from;
    while i < words.len()
        invariant
            from <= i <= words.len(),
            ws == words@.map_values(|w: Vec<char>| w@).skip(from as int),
            target == (if capital { ws.map_values(capitalize_fn()) } else { ws }),
            r@ == concat_all(target.take(i - from)),
        decreases words.len() - i,
    {
        let w = &words[i];
        assert(ws[i - from] == w@);
        let ghost mid = r@;
        let mut k: usize = 0;
        while k < w.len()
            invariant
                k <= w.len(),
                r@ == mid + (if capital { capitalize(w@) } else { w@ }).take(k as int),
            decreases w.len() - k,
        {
            let c = if capital && k == 0 { char_to_upper(w[k]) } else { w[k] };
            r.push(c);
            assert((if capital { capitalize(w@) } else { w@ }).take(k + 1) =~= (if capital { capitalize(w@) } else { w@ }).take(k as int).push(c));
            k = k + 1;
        }
        assert((if capital { capitalize(w@) } else { w@ }).take(w.len() as int) =~= (if capital { capitalize(w@) } else { w@ }));
        assert(target.take(i + 1 - from).drop_last() =~= target.take(i - from));
        assert(target.take(i + 1 - from).last() == (if capital { capitalize(w@) } else { w@ }));
        i = i + 1;
    }
    assert(target.take(words.len() - from) =~= target);
    r
}

/// Applies a serde `rename_all` rule to a name.
pub fn apply_case_rule(value: &[char], rule: &[char]) -> (r: Option<Vec<char>>)
    ensures
        match r {
            Some(v) => case_rule(value@, rule@) == Some(v@),
            None => case_rule(value@, rule@) is None,
        },
{
    let words = split_words_exec(value);
    let ghost ws = words@.map_values(|w: Vec<char>| w@);
    if words.len() == 0 {
        return None;
    }
    assert(ws.skip(0) =~= ws);
    assert(ws.skip(1) =~= ws.drop_first());
    if chars_equal(rule, "kebab-case") {
        assert(seq!['-'] =~= "-"@) by { reveal_strlit("-"); }
        Some(joined_chars(&words, '-'))
    } else if chars_equal(rule, "snake_case") {
        assert(seq!['_'] =~= "_"@) by { reveal_strlit("_"); }
        Some(joined_chars(&words, '_'))
    } else if chars_equal(rule, "SCREAMING_SNAKE_CASE") {
        assert(seq!['_'] =~= "_"@) by { reveal_strlit("_"); }
        let j = joined_chars(&words, '_');
        Some(to_upper(j.as_slice()))
    } else if chars_equal(rule, "lowercase") {
        Some(concat_mapped(&words, 0, false))
    } else if chars_equal(rule, "UPPERCASE") {
        let c = concat_mapped(&words, 0, false);
        Some(to_upper(c.as_slice()))
    } else if chars_equal(rule, "camelCase") {
        let mut first = words[0].clone();
        let rest = concat_mapped(&words, 1, true);
        let mut k: usize = 0;
        let ghost start = first@;
        assert(start == ws[0]);
        while k < rest.len()
            invariant
                k <= rest.len(),
                first@ == start + rest@.take(k as int),
            decreases rest.len() - k,
        {
            first.push(rest[k]);
            assert(rest@.take(k + 1) =~= rest@.take(k as int).push(rest@[k as int]));
            k = k + 1;
        }
        assert(rest@.take(rest.len() as int) =~= rest@);
        Some(first)
    } else if chars_equal(rule, "PascalCase") {
        Some(concat_mapped(&words, 0, true))
    } else {
        None
    }
}


/// No character of `w` separates words.
pub open spec fn separator_free(w: Seq<char>) -> bool {
    forall|j: int| 0 <= j < w.len() ==> #[trigger] w[j] != '-' && w[j] != '_'
}

/// Lowercasing keeps a word free of separators.
proof fn lemma_lower_separator_free(w: Seq<char>)
    requires
        separator_free(w),
    ensures
        separator_free(lower_text(w)),
{
    assert forall|j: int| 0 <= j < lower_text(w).len() implies #[trigger] lower_text(w)[j] != '-' && lower_text(w)[j] != '_' by {
        let c = w[j];
        if is_ascii_upper(c) {
            assert(((c as u32) + 32) as char == lower_text(w)[j]);
            assert(97 <= (c as u32) + 32 <= 122);
        }
    }
}

/// The words split so far, and the word in progress, hold no separator.
proof fn lemma_split_upto_separator_free(chars: Seq<char>, n: int)
    ensures
        forall|k: int| 0 <= k < split_upto(chars, n).0.len() ==> separator_free(#[trigger] split_upto(chars, n).0[k]),
        separator_free(split_upto(chars, n).1),
    decreases n,
{
    if !(n <= 0 || n > chars.len()) {
        lemma_split_upto_separator_free(chars, n - 1);
        let (words, current) = split_upto(chars, n - 1);
        let c = chars[n - 1];
        lemma_lower_separator_free(current);
        if !(c == '_' || c == '-') {
            assert(separator_free(seq![c]));
            assert(separator_free(current.push(c)));
        }
    }
}

/// The words of a name hold no separator.
proof fn lemma_words_separator_free(chars: Seq<char>)
    ensures
        forall|k: int| 0 <= k < split_words(chars).len() ==> separator_free(#[trigger] split_words(chars)[k]),
{
    lemma_split_upto_separator_free(chars, chars.len() as int);
    lemma_lower_separator_free(split_upto(chars, chars.len() as int).1);
}

pub open spec fn dash_to_underscore(c: char) -> char {
    if c == '-' {
        '_'
    } else {
        c
    }
}

/// Words free of separators joined with `-`, with each `-` turned into `_`, are
/// the same words joined with `_`.
proof fn lemma_joined_dash_to_underscore(ws: Seq<Seq<char>>)
    requires
        forall|k: int| 0 <= k < ws.len() ==> separator_free(#[trigger] ws[k]),
    ensures
        joined(ws, "-"@).map_values(|c: char| dash_to_underscore(c)) == joined(ws, "_"@),
        forall|j: int| 0 <= j < joined(ws, "_"@).len() ==> #[trigger] joined(ws, "_"@)[j] != '-',
    decreases ws.len(),
{
    reveal_strlit("-");
    reveal_strlit("_");
    if ws.len() == 1 {
        assert(separator_free(ws[0]));
        assert(ws[0].map_values(|c: char| dash_to_underscore(c)) =~= ws[0]);
    } else if ws.len() > 1 {
        let front = ws.drop_last();
        assert forall|k: int| 0 <= k < front.len() implies separator_free(#[trigger] front[k]) by {
            assert(front[k] == ws[k]);
        }
        lemma_joined_dash_to_underscore(front);
        let last = ws.last();
        assert(separator_free(ws[ws.len() - 1]));
        assert(last.map_values(|c: char| dash_to_underscore(c)) =~= last);
        let a = joined(front, "-"@);
        assert((a + "-"@ + last).map_values(|c: char| dash_to_underscore(c)) =~= a.map_values(
            |c: char| dash_to_underscore(c),
        ) + "_"@ + last.map_values(|c: char| dash_to_underscore(c)));
        let b = joined(ws, "_"@);
        assert forall|j: int| 0 <= j < b.len() implies #[trigger] b[j] != '-' by {
            let fb = joined(front, "_"@);
            if j < fb.len() {
                assert(b[j] == fb[j]);
            } else if j == fb.len() {
                assert(b[j] == '_');
            } else {
                assert(b[j] == last[j - fb.len() - 1]);
            }
        }
    }
}

/// Under `snake_case` a name's lowercase words are joined with `_`: the result
/// holds no `-`, and it is the `kebab-case` result with each `-` turned into
/// `_` (so `DebugInfo` becomes `debug_info` where kebab-case gives `debug-info`).
pub proof fn law_snake_case_joins_with_underscores(name: Seq<char>)
    ensures
        case_rule(name, "snake_case"@) is Some <==> case_rule(name, "kebab-case"@) is Some,
        case_rule(name, "snake_case"@) matches Some(s) ==> {
            &&& forall|j: int| 0 <= j < s.len() ==> #[trigger] s[j] != '-'
            &&& s == case_rule(name, "kebab-case"@)->Some_0.map_values(|c: char| dash_to_underscore(c))
        },
{
    reveal_strlit("snake_case");
    reveal_strlit("kebab-case");
    assert("snake_case"@ != "kebab-case"@) by {
        assert("snake_case"@[0] != "kebab-case"@[0]);
    }
    lemma_words_separator_free(name);
    let ws = split_words(name);
    if ws.len() > 0 {
        lemma_joined_dash_to_underscore(ws);
    }
}

} // verus!
