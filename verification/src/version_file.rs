//! The installed version of a game, read from a version file that the
//! game's packaging leaves behind.

use vstd::prelude::*;

use crate::fmt::{all_digits, all_digits_exec};
use crate::text::{
    char_views, chars_of, split_chars, split_pieces, split_words, string_from_chars, sub_vec, trim,
    trim_chars, words, Sep,
};

verus! {

/// A `v` or `V` around a version number.
pub open spec fn is_v(c: char) -> bool {
    c == 'v' || c == 'V'
}

/// `s` without leading `v`/`V`.
pub open spec fn trim_v_start(s: Seq<char>) -> Seq<char>
    decreases s.len(),
{
    if s.len() > 0 && is_v(s[0]) {
        trim_v_start(s.drop_first())
    } else {
        s
    }
}

/// `s` without trailing `v`/`V`.
pub open spec fn trim_v_end(s: Seq<char>) -> Seq<char>
    decreases s.len(),
{
    if s.len() > 0 && is_v(s.last()) {
        trim_v_end(s.drop_last())
    } else {
        s
    }
}

/// `str::trim_matches` with `v` and `V`.
pub open spec fn trim_v(s: Seq<char>) -> Seq<char> {
    trim_v_end(trim_v_start(s))
}

/// Two or more dot-separated runs of ASCII digits, none empty.
pub open spec fn is_version_token(t: Seq<char>) -> bool {
    let parts = split_pieces(t, Sep::Dot);
    &&& parts.len() >= 2
    &&& forall|i: int| 0 <= i < parts.len() ==> (#[trigger] parts[i]).len() > 0 && all_digits(parts[i])
}

/// The first token (with surrounding `v`s dropped) that is a version
/// number.
pub open spec fn first_version_token(tokens: Seq<Seq<char>>) -> Option<Seq<char>>
    decreases tokens.len(),
{
    if tokens.len() == 0 {
        None
    } else if is_version_token(trim_v(tokens[0])) {
        Some(trim_v(tokens[0]))
    } else {
        first_version_token(tokens.drop_first())
    }
}

/// What a version file says: the first whitespace-separated token of the
/// form `v?\d+(\.\d+)+` (without its `v`), else the whole trimmed content
/// when it is not blank.
pub open spec fn installed_version(content: Seq<char>) -> Option<Seq<char>> {
    match first_version_token(words(content, Sep::Whitespace)) {
        Some(t) => Some(t),
        None => if trim(content).len() > 0 {
            Some(trim(content))
        } else {
            None
        },
    }
}

proof fn lemma_trim_v_start_skip(s: Seq<char>, i: int)
    requires
        0 <= i <= s.len(),
        forall|k: int| 0 <= k < i ==> is_v(#[trigger] s[k]),
    ensures
        trim_v_start(s) == trim_v_start(s.subrange(i, s.len() as int)),
    decreases i,
{
    if i > 0 {
        assert(is_v(s[0]));
        let t = s.drop_first();
        assert forall|k: int| 0 <= k < i - 1 implies is_v(#[trigger] t[k]) by {
            assert(t[k] == s[k + 1]);
        }
        lemma_trim_v_start_skip(t, i - 1);
        assert(t.subrange(i - 1, t.len() as int) =~= s.subrange(i, s.len() as int));
    } else {
        assert(s.subrange(0, s.len() as int) =~= s);
    }
}

proof fn lemma_trim_v_end_skip(s: Seq<char>, j: int)
    requires
        0 <= j <= s.len(),
        forall|k: int| j <= k < s.len() ==> is_v(#[trigger] s[k]),
    ensures
        trim_v_end(s) == trim_v_end(s.subrange(0, j)),
    decreases s.len() - j,
{
    if j < s.len() {
        assert(is_v(s.last()));
        let t = s.drop_last();
        lemma_trim_v_end_skip(t, j);
        assert(t.subrange(0, j) =~= s.subrange(0, j));
    } else {
        assert(s.subrange(0, j) =~= s);
    }
}

fn is_v_exec(c: char) -> (r: bool)
    ensures
        r == is_v(c),
{
    c == 'v' || c == 'V'
}

/// `trim_v` on a character vector.
fn trim_v_chars(s: &Vec<char>) -> (r: Vec<char>)
    ensures
        r@ == trim_v(s@),
{
    let mut i: usize = 0;
    while i < s.len() && is_v_exec(s[i])
        invariant
            i <= s.len(),
            forall|k: int| 0 <= k < i ==> is_v(#[trigger] s@[k]),
        decreases s.len() - i,
    {
        i = i + 1;
    }
    proof {
        lemma_trim_v_start_skip(s@, i as int);
    }
    let ghost rest = s@.subrange(i as int, s.len() as int);
    assert(trim_v_start(rest) == rest) by {
        if rest.len() > 0 {
            assert(rest[0] == s@[i as int]);
        }
    }
    let mut j: usize = s.len();
    while j > i && is_v_exec(s[j - 1])
        invariant
            i <= j <= s.len(),
            forall|k: int| j <= k < s.len() ==> is_v(#[trigger] s@[k]),
        decreases j,
    {
        j = j - 1;
    }
    proof {
        let jj = (j - i) as int;
        assert forall|k: int| jj <= k < rest.len() implies is_v(#[trigger] rest[k]) by {
            assert(rest[k] == s@[k + i]);
        }
        lemma_trim_v_end_skip(rest, jj);
        let t = rest.subrange(0, jj);
        assert(t =~= s@.subrange(i as int, j as int));
        if t.len() > 0 {
            assert(t.last() == s@[j - 1]);
        }
        assert(trim_v_end(t) == t);
    }
    sub_vec(s, i, j)
}

/// Whether `t` is two or more dot-separated runs of ASCII digits.
fn is_version_token_exec(t: &Vec<char>) -> (r: bool)
    ensures
        r == is_version_token(t@),
{
    let parts = split_chars(t, Sep::Dot);
    if parts.len() < 2 {
        return false;
    }
    let mut i: usize = 0;
    while i < parts.len()
        invariant
            i <= parts@.len(),
            char_views(parts@) == split_pieces(t@, Sep::Dot),
            forall|k: int| 0 <= k < i ==> (#[trigger] parts@[k])@.len() > 0 && all_digits(parts@[k]@),
        decreases parts.len() - i,
    {
        if !(parts[i].len() > 0 && all_digits_exec(&parts[i])) {
            proof {
                assert(char_views(parts@)[i as int] == parts@[i as int]@);
            }
            return false;
        }
        i = i + 1;
    }
    proof {
        let ps = split_pieces(t@, Sep::Dot);
        assert forall|k: int| 0 <= k < ps.len() implies (#[trigger] ps[k]).len() > 0 && all_digits(ps[k]) by {
            assert(ps[k] == parts@[k]@);
        }
    }
    true
}

/// Reads the installed version out of a version file's content (see
/// `installed_version`).
pub fn installed_version_of(content: &str) -> (r: Option<String>)
    ensures
        match r {
            Some(s) => installed_version(content@) == Some(s@),
            None => installed_version(content@) is None,
        },
{
    let chars = chars_of(content);
    let tokens = split_words(&chars, Sep::Whitespace);
    let ghost ws = words(content@, Sep::Whitespace);
    let mut i: usize = 0;
    assert(ws.subrange(0, ws.len() as int) =~= ws);
    while i < tokens.len()
        invariant
            i <= tokens@.len(),
            chars@ == content@,
            ws == words(content@, Sep::Whitespace),
            char_views(tokens@) == ws,
            first_version_token(ws) == first_version_token(ws.subrange(i as int, ws.len() as int)),
        decreases tokens.len() - i,
    {
        let t = trim_v_chars(&tokens[i]);
        let ghost tail = ws.subrange(i as int, ws.len() as int);
        proof {
            assert(tail[0] == tokens@[i as int]@);
            assert(tail.drop_first() =~= ws.subrange(i + 1, ws.len() as int));
        }
        if is_version_token_exec(&t) {
            assert(first_version_token(tail) == Some(t@));
            return Some(string_from_chars(&t));
        }
        i = i + 1;
    }
    proof {
        assert(ws.subrange(i as int, ws.len() as int).len() == 0);
    }
    let trimmed = trim_chars(&chars);
    if trimmed.len() > 0 {
        Some(string_from_chars(&trimmed))
    } else {
        None
    }
}

} // verus!
