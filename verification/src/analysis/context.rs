//! The explicit source provenance that an analysis runs under.

use vstd::prelude::*;
use crate::analysis::error::AnalysisError;
use crate::model::{Revision, RevisionView};
use crate::text::{chars_of, char_is_ascii_alnum, is_ascii_alnum, string_of, trim, trim_chars, owned, push_str};

verus! {

#[derive(Debug, Clone, PartialEq, Eq)]
pub struct AnalysisSourceContext {
    pub repository: String,
    pub source: String,
    pub namespace: String,
    pub revision: Revision,
}

/// A GitHub owner or repository name: ASCII letters, digits, `_`, `.` and `-`.
pub open spec fn valid_component(s: Seq<char>) -> bool {
    s.len() > 0 && forall|i: int| 0 <= i < s.len() ==> component_char(#[trigger] s[i])
}

pub open spec fn component_char(c: char) -> bool {
    is_ascii_alnum(c) || c == '_' || c == '.' || c == '-'
}

/// `OWNER/NAME` with two valid components.
pub open spec fn valid_repository(t: Seq<char>) -> bool {
    exists|k: int| 0 <= k < t.len() && t[k] == '/' && valid_component(t.take(k)) && valid_component(t.skip(k + 1))
}

/// The position of the first `/`.
pub open spec fn first_slash(t: Seq<char>) -> int {
    choose|k: int| 0 <= k < t.len() && t[k] == '/' && forall|j: int| 0 <= j < k ==> t[j] != '/'
}

pub fn is_valid_component(s: &[char]) -> (r: bool)
    ensures
        r == valid_component(s@),
{
    if s.len() == 0 {
        return false;
    }
    let mut i: usize = 0;
    while i < s.len()
        invariant
            i <= s.len(),
            forall|k: int| 0 <= k < i ==> component_char(#[trigger] s@[k]),
        decreases s.len() - i,
    {
        let c = s[i];
        if !(char_is_ascii_alnum(c) || c == '_' || c == '.' || c == '-') {
            return false;
        }
        i = i + 1;
    }
    true
}

impl AnalysisSourceContext {
    /// Context for the GitHub repository `OWNER/NAME` (surrounding white space ignored);
    /// the namespace of derived ids is `NAME` and the source id is `github:OWNER/NAME`.
    pub fn github(repository: &str, revision: Revision) -> (r: Result<AnalysisSourceContext, AnalysisError>)
        ensures
            r is Ok <==> valid_repository(trim(repository@)),
            r matches Ok(c) ==> {
                let t = trim(repository@);
                &&& c.repository@ == t
                &&& c.source@ == "github:"@ + t
                &&& c.namespace@ == t.skip(first_slash(t) + 1)
                &&& c.revision@ == revision@
            },
            r is Err ==> (r matches Err(AnalysisError::InvalidRepository(m)) && m@ == trim(repository@)),
    {
        let t = trim_chars(&chars_of(repository));
        let mut k: usize = 0;
        while k < t.len() && t[k] != '/'
            invariant
                k <= t.len(),
                forall|j: int| 0 <= j < k ==> t@[j] != '/',
            decreases t.len() - k,
        {
            k = k + 1;
        }
        let trimmed = string_of(&t);
        if k == t.len() {
            proof {
                assert forall|j: int| 0 <= j < t@.len() && t@[j] == '/' implies !(valid_component(t@.take(j)) && valid_component(t@.skip(j + 1))) by {}
            }
            return Err(AnalysisError::InvalidRepository(trimmed));
        }
        let owner = t.as_slice().split_at(k).0;
        let name = t.as_slice().split_at(k + 1).1;
        assert(owner@ =~= t@.take(k as int));
        assert(name@ =~= t@.skip(k + 1));
        if !is_valid_component(owner) || !is_valid_component(name) {
            proof {
                assert forall|j: int| 0 <= j < t@.len() && t@[j] == '/' implies !(valid_component(t@.take(j)) && valid_component(t@.skip(j + 1))) by {
                    if j > k {
                        assert(t@.take(j)[k as int] == '/');
                    } else if j == k {
                    }
                }
            }
            return Err(AnalysisError::InvalidRepository(trimmed));
        }
        let ghost fs = first_slash(t@);
        proof {
            assert(0 <= k < t@.len() && t@[k as int] == '/' && forall|j: int| 0 <= j < k ==> t@[j] != '/');
            if fs != k {
                if fs < k {
                } else {
                    assert(t@[k as int] != '/');
                }
            }
        }
        let mut source = owned("github:");
        push_str(&mut source, trimmed.as_str());
        Ok(AnalysisSourceContext {
            repository: trimmed,
            source,
            namespace: string_of(name),
            revision,
        })
    }
}

} // verus!
