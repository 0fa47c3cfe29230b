//! Desktop-file stem patterns.

use vstd::prelude::*;

use crate::text::{chars_eq, chars_of, starts_with, starts_with_exec, sub_vec};

verus! {

/// A trailing `*` makes the pattern a prefix, anything else is an exact
/// match; case-sensitive.
pub open spec fn glob_matches(stem: Seq<char>, pattern: Seq<char>) -> bool {
    if pattern.len() > 0 && pattern.last() == '*' {
        starts_with(stem, pattern.drop_last())
    } else {
        stem == pattern
    }
}

/// Simple stem matcher: a trailing `*` makes the pattern a prefix,
/// anything else is an exact match. Case-sensitive on purpose: desktop
/// file stems are.
pub fn matches_glob(stem: &str, pattern: &str) -> (r: bool)
    ensures
        r == glob_matches(stem@, pattern@),
{
    let s = chars_of(stem);
    let p = chars_of(pattern);
    if p.len() > 0 && p[p.len() - 1] == '*' {
        let prefix = sub_vec(&p, 0, p.len() - 1);
        assert(prefix@ =~= p@.drop_last());
        starts_with_exec(&s, &prefix)
    } else {
        chars_eq(&s, &p)
    }
}

/// Whether some pattern matches the stem.
pub fn matches_any(stem: &str, patterns: &[String]) -> (r: bool)
    ensures
        r == exists|i: int| 0 <= i < patterns@.len() && glob_matches(stem@, #[trigger] patterns@[i]@),
{
    let mut i: usize = 0;
    while i < patterns.len()
        invariant
            i <= patterns.len(),
            forall|k: int| 0 <= k < i ==> !glob_matches(stem@, #[trigger] patterns@[k]@),
        decreases patterns.len() - i,
    {
        if matches_glob(stem, patterns[i].as_str()) {
            return true;
        }
        i = i + 1;
    }
    false
}

} // verus!
