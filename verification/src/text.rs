//! Character-sequence helpers shared by the parsers of this crate: the
//! Unicode whitespace class, trimming, prefixes, substrings and the
//! conversions between `str`/`String` and `Vec<char>`.

use vstd::prelude::*;

verus! {

/// `char::is_whitespace`: the Unicode `White_Space` property.
pub open spec fn is_ws(c: char) -> bool {
    let u = c as u32;
    ||| u == 0x20
    ||| (0x09 <= u && u <= 0x0d)
    ||| u == 0x85
    ||| u == 0xa0
    ||| u == 0x1680
    ||| (0x2000 <= u && u <= 0x200a)
    ||| u == 0x2028
    ||| u == 0x2029
    ||| u == 0x202f
    ||| u == 0x205f
    ||| u == 0x3000
}

/// `s` without its leading whitespace.
pub open spec fn trim_start(s: Seq<char>) -> Seq<char>
    decreases s.len(),
{
    if s.len() > 0 && is_ws(s[0]) {
        trim_start(s.drop_first())
    } else {
        s
    }
}

/// `s` without its trailing whitespace.
pub open spec fn trim_end(s: Seq<char>) -> Seq<char>
    decreases s.len(),
{
    if s.len() > 0 && is_ws(s.last()) {
        trim_end(s.drop_last())
    } else {
        s
    }
}

/// `str::trim`: `s` without leading and trailing whitespace.
pub open spec fn trim(s: Seq<char>) -> Seq<char> {
    trim_end(trim_start(s))
}

/// `str::starts_with` for a string pattern.
pub open spec fn starts_with(s: Seq<char>, p: Seq<char>) -> bool {
    p.len() <= s.len() && s.subrange(0, p.len() as int) == p
}

/// `str::ends_with` for a string pattern.
pub open spec fn ends_with(s: Seq<char>, p: Seq<char>) -> bool {
    p.len() <= s.len() && s.subrange(s.len() - p.len(), s.len() as int) == p
}

/// `p` occurs in `s` at position `i`.
pub open spec fn occurs_at(s: Seq<char>, p: Seq<char>, i: int) -> bool {
    0 <= i && i + p.len() <= s.len() && s.subrange(i, i + p.len()) == p
}

/// `str::contains` for a string pattern.
pub open spec fn contains(s: Seq<char>, p: Seq<char>) -> bool {
    exists|i: int| occurs_at(s, p, i)
}

/// True when `c` is an ASCII character.
pub open spec fn is_ascii_char(c: char) -> bool {
    (c as u32) < 128
}

/// The characters of a string slice, in order.
pub fn chars_of(s: &str) -> (r: Vec<char>)
    ensures
        r@ == s@,
{
    let mut out: Vec<char> = Vec::new();
    for c in it: s.chars()
        invariant
            out@ == it.seq().take(it.index() as int),
            it.seq() == s@,
    {
        out.push(c);
    }
    out
}

/// Collects characters into a `String` (std's `FromIterator<&char>` for
/// `String`); the string holds exactly those characters in that order.
#[verifier::external_body]
pub(crate) fn string_from_chars(v: &Vec<char>) -> (r: String)
    ensures
        r@ == v@,
{
    v.iter().collect()
}

/// `s[from..to]` as a vector.
pub fn sub_vec(s: &Vec<char>, from: usize, to: usize) -> (r: Vec<char>)
    requires
        from <= to <= s.len(),
    ensures
        r@ == s@.subrange(from as int, to as int),
{
    let mut out: Vec<char> = Vec::new();
    let mut i = from;
    while i < to
        invariant
            from <= i <= to <= s.len(),
            out@ == s@.subrange(from as int, i as int),
        decreases to - i,
    {
        out.push(s[i]);
        i = i + 1;
        assert(out@ =~= s@.subrange(from as int, i as int));
    }
    out
}

/// Appends all of `s` to `out`.
pub fn push_all(out: &mut Vec<char>, s: &Vec<char>)
    ensures
        final(out)@ == old(out)@ + s@,
{
    let mut i: usize = 0;
    while i < s.len()
        invariant
            i <= s.len(),
            out@ == old(out)@ + s@.take(i as int),
        decreases s.len() - i,
    {
        out.push(s[i]);
        i = i + 1;
        assert(out@ =~= old(out)@ + s@.take(i as int));
    }
    assert(s@.take(s.len() as int) =~= s@);
}

/// `char::is_whitespace`.
pub fn is_whitespace(c: char) -> (r: bool)
    ensures
        r == is_ws(c),
{
    let u = c as u32;
    u == 0x20 || (0x09 <= u && u <= 0x0d) || u == 0x85 || u == 0xa0 || u == 0x1680 || (0x2000
        <= u && u <= 0x200a) || u == 0x2028 || u == 0x2029 || u == 0x202f || u == 0x205f || u
        == 0x3000
}

proof fn lemma_trim_start_skip(s: Seq<char>, i: int)
    requires
        0 <= i <= s.len(),
        forall|k: int| 0 <= k < i ==> is_ws(#[trigger] s[k]),
    ensures
        trim_start(s) == trim_start(s.subrange(i, s.len() as int)),
    decreases i,
{
    if i > 0 {
        assert(is_ws(s[0]));
        let t = s.drop_first();
        assert forall|k: int| 0 <= k < i - 1 implies is_ws(#[trigger] t[k]) by {
            assert(t[k] == s[k + 1]);
        }
        lemma_trim_start_skip(t, i - 1);
        assert(t.subrange(i - 1, t.len() as int) =~= s.subrange(i, s.len() as int));
    } else {
        assert(s.subrange(0, s.len() as int) =~= s);
    }
}

proof fn lemma_trim_end_skip(s: Seq<char>, j: int)
    requires
        0 <= j <= s.len(),
        forall|k: int| j <= k < s.len() ==> is_ws(#[trigger] s[k]),
    ensures
        trim_end(s) == trim_end(s.subrange(0, j)),
    decreases s.len() - j,
{
    if j < s.len() {
        assert(is_ws(s.last()));
        let t = s.drop_last();
        lemma_trim_end_skip(t, j);
        assert(t.subrange(0, j) =~= s.subrange(0, j));
    } else {
        assert(s.subrange(0, j) =~= s);
    }
}

/// Bounds `(a, b)` such that `s[a..b]` is `trim(s)`.
pub fn trim_bounds(s: &Vec<char>) -> (r: (usize, usize))
    ensures
        r.0 <= r.1 <= s.len(),
        s@.subrange(r.0 as int, r.1 as int) == trim(s@),
{
    let mut i: usize = 0;
    while i < s.len() && is_whitespace(s[i])
        invariant
            i <= s.len(),
            forall|k: int| 0 <= k < i ==> is_ws(#[trigger] s@[k]),
        decreases s.len() - i,
    {
        i = i + 1;
    }
    proof {
        lemma_trim_start_skip(s@, i as int);
    }
    let ghost rest = s@.subrange(i as int, s.len() as int);
    assert(trim_start(rest) == rest) by {
        if rest.len() > 0 {
            assert(rest[0] == s@[i as int]);
        }
    }
    let mut j: usize = s.len();
    while j > i && is_whitespace(s[j - 1])
        invariant
            i <= j <= s.len(),
            forall|k: int| j <= k < s.len() ==> is_ws(#[trigger] s@[k]),
        decreases j,
    {
        j = j - 1;
    }
    proof {
        let jj = (j - i) as int;
        assert forall|k: int| jj <= k < rest.len() implies is_ws(#[trigger] rest[k]) by {
            assert(rest[k] == s@[k + i]);
        }
        lemma_trim_end_skip(rest, jj);
        let t = rest.subrange(0, jj);
        assert(t =~= s@.subrange(i as int, j as int));
        if t.len() > 0 {
            assert(t.last() == s@[j - 1]);
        }
        assert(trim_end(t) == t);
    }
    (i, j)
}

/// `str::trim` on a character vector.
pub fn trim_chars(s: &Vec<char>) -> (r: Vec<char>)
    ensures
        r@ == trim(s@),
{
    let (a, b) = trim_bounds(s);
    sub_vec(s, a, b)
}

/// A sequence that neither starts nor ends with whitespace is its own trim.
pub proof fn lemma_trim_noop(s: Seq<char>)
    requires
        s.len() > 0,
        !is_ws(s[0]),
        !is_ws(s.last()),
    ensures
        trim(s) == s,
{
}

/// Whether `s[at..]` starts with `p`.
pub fn occurs_at_exec(s: &Vec<char>, p: &Vec<char>, at: usize) -> (r: bool)
    ensures
        r == occurs_at(s@, p@, at as int),
{
    if at > s.len() || p.len() > s.len() - at {
        return false;
    }
    let mut k: usize = 0;
    while k < p.len()
        invariant
            at + p.len() <= s.len(),
            k <= p.len(),
            forall|x: int| 0 <= x < k ==> s@[at + x] == p@[x],
        decreases p.len() - k,
    {
        if s[at + k] != p[k] {
            assert(s@.subrange(at as int, at + p.len())[k as int] != p@[k as int]);
            return false;
        }
        k = k + 1;
    }
    assert(s@.subrange(at as int, at + p.len()) =~= p@);
    true
}

/// `str::starts_with` on character vectors.
pub fn starts_with_exec(s: &Vec<char>, p: &Vec<char>) -> (r: bool)
    ensures
        r == starts_with(s@, p@),
{
    occurs_at_exec(s, p, 0)
}

/// `str::contains` on character vectors.
pub fn contains_exec(s: &Vec<char>, p: &Vec<char>) -> (r: bool)
    ensures
        r == contains(s@, p@),
{
    if p.len() > s.len() {
        assert forall|i: int| !occurs_at(s@, p@, i) by {}
        return false;
    }
    let mut i: usize = 0;
    while i <= s.len() - p.len()
        invariant
            p.len() <= s.len(),
            forall|k: int| 0 <= k < i ==> !occurs_at(s@, p@, k),
        decreases s.len() - p.len() + 1 - i,
    {
        if occurs_at_exec(s, p, i) {
            return true;
        }
        if i == s.len() - p.len() {
            assert forall|k: int| !occurs_at(s@, p@, k) by {}
            return false;
        }
        i = i + 1;
    }
    assert forall|k: int| !occurs_at(s@, p@, k) by {}
    false
}

/// Character-wise equality of two vectors.
pub fn chars_eq(a: &Vec<char>, b: &Vec<char>) -> (r: bool)
    ensures
        r == (a@ == b@),
{
    if a.len() != b.len() {
        return false;
    }
    let mut i: usize = 0;
    while i < a.len()
        invariant
            a.len() == b.len(),
            i <= a.len(),
            forall|k: int| 0 <= k < i ==> a@[k] == b@[k],
        decreases a.len() - i,
    {
        if a[i] != b[i] {
            return false;
        }
        i = i + 1;
    }
    assert(a@ =~= b@);
    true
}

/// Equality of a string slice with a character vector.
pub fn str_eq_chars(a: &str, b: &Vec<char>) -> (r: bool)
    ensures
        r == (a@ == b@),
{
    let av = chars_of(a);
    chars_eq(&av, b)
}

/// Separator classes used when splitting text.
#[derive(Clone, Copy, Debug, PartialEq, Eq)]
pub enum Sep {
    /// `.`, `-` or `_` (version segments).
    VersionMark,
    /// `;` (desktop-entry lists).
    Semicolon,
    /// Unicode whitespace.
    Whitespace,
    /// `.` only.
    Dot,
    /// A line feed.
    Newline,
}

/// Whether `c` separates pieces for the class `k`.
pub open spec fn is_sep(k: Sep, c: char) -> bool {
    match k {
        Sep::VersionMark => c == '.' || c == '-' || c == '_',
        Sep::Semicolon => c == ';',
        Sep::Whitespace => is_ws(c),
        Sep::Dot => c == '.',
        Sep::Newline => c == '\n',
    }
}

/// `str::split` on the separators of class `k`: `n` separators give
/// `n + 1` (possibly empty) pieces.
pub open spec fn split_pieces(s: Seq<char>, k: Sep) -> Seq<Seq<char>>
    decreases s.len(),
{
    if s.len() == 0 {
        seq![Seq::<char>::empty()]
    } else {
        let r = split_pieces(s.drop_last(), k);
        if is_sep(k, s.last()) {
            r.push(Seq::<char>::empty())
        } else {
            r.update(r.len() - 1, r.last().push(s.last()))
        }
    }
}

/// The non-empty pieces of `ps`, in order.
pub open spec fn nonempty_pieces(ps: Seq<Seq<char>>) -> Seq<Seq<char>>
    decreases ps.len(),
{
    if ps.len() == 0 {
        Seq::<Seq<char>>::empty()
    } else {
        let r = nonempty_pieces(ps.drop_last());
        if ps.last().len() > 0 {
            r.push(ps.last())
        } else {
            r
        }
    }
}

/// `str::split_whitespace` (and, for other classes, split then drop the
/// empty pieces).
pub open spec fn words(s: Seq<char>, k: Sep) -> Seq<Seq<char>> {
    nonempty_pieces(split_pieces(s, k))
}

pub proof fn lemma_split_pieces_nonempty(s: Seq<char>, k: Sep)
    ensures
        split_pieces(s, k).len() >= 1,
    decreases s.len(),
{
    if s.len() > 0 {
        lemma_split_pieces_nonempty(s.drop_last(), k);
    }
}

/// Appending text with no separator in it extends the last piece.
pub proof fn lemma_split_append(p: Seq<char>, b: Seq<char>, k: Sep)
    requires
        forall|i: int| 0 <= i < b.len() ==> !is_sep(k, #[trigger] b[i]),
    ensures
        split_pieces(p + b, k) == split_pieces(p, k).update(
            split_pieces(p, k).len() - 1,
            split_pieces(p, k).last() + b,
        ),
    decreases b.len(),
{
    lemma_split_pieces_nonempty(p, k);
    let s = split_pieces(p, k);
    if b.len() == 0 {
        assert(p + b =~= p);
        assert(s.last() + b =~= s.last());
        assert(s.update(s.len() - 1, s.last()) =~= s);
    } else {
        let c = b.last();
        assert(!is_sep(k, b[b.len() - 1]));
        lemma_split_append(p, b.drop_last(), k);
        assert((p + b).drop_last() =~= p + b.drop_last());
        assert((p + b).last() == c);
        let r = split_pieces(p + b.drop_last(), k);
        assert(r.last() == s.last() + b.drop_last());
        assert((s.last() + b.drop_last()).push(c) =~= s.last() + b);
        assert(r.update(r.len() - 1, r.last().push(c)) =~= s.update(s.len() - 1, s.last() + b));
    }
}

/// Text with no separator in it is one piece; a separator and then such
/// text start a new piece holding it.
pub proof fn lemma_split_pieces_parts(p: Seq<char>, sep: char, b: Seq<char>, k: Sep)
    requires
        is_sep(k, sep),
        forall|i: int| 0 <= i < b.len() ==> !is_sep(k, #[trigger] b[i]),
    ensures
        split_pieces(b, k) == seq![b],
        split_pieces(p.push(sep) + b, k) == split_pieces(p, k).push(b),
{
    lemma_split_append(Seq::empty(), b, k);
    assert(Seq::<char>::empty() + b =~= b);
    assert(Seq::<char>::empty() + b =~= b);
    assert(seq![Seq::<char>::empty()].update(0, Seq::<char>::empty() + b) =~= seq![b]);
    assert(p.push(sep).drop_last() =~= p);
    lemma_split_append(p.push(sep), b, k);
    let s = split_pieces(p, k);
    assert(split_pieces(p.push(sep), k) == s.push(Seq::<char>::empty()));
    assert(s.push(Seq::<char>::empty()).update(s.len() as int, Seq::<char>::empty() + b) =~= s.push(b));
}

/// The character sequences held by a sequence of vectors.
pub open spec fn char_views(v: Seq<Vec<char>>) -> Seq<Seq<char>> {
    v.map_values(|x: Vec<char>| x@)
}

/// Whether `c` is a separator of class `k`.
pub fn is_sep_exec(k: Sep, c: char) -> (r: bool)
    ensures
        r == is_sep(k, c),
{
    match k {
        Sep::VersionMark => c == '.' || c == '-' || c == '_',
        Sep::Semicolon => c == ';',
        Sep::Whitespace => is_whitespace(c),
        Sep::Dot => c == '.',
        Sep::Newline => c == '\n',
    }
}

/// `str::split` on the separators of class `k`.
pub fn split_chars(s: &Vec<char>, k: Sep) -> (r: Vec<Vec<char>>)
    ensures
        char_views(r@) == split_pieces(s@, k),
{
    let mut done: Vec<Vec<char>> = Vec::new();
    let mut cur: Vec<char> = Vec::new();
    let mut i: usize = 0;
    assert(s@.take(0) =~= Seq::<char>::empty());
    while i < s.len()
        invariant
            i <= s.len(),
            split_pieces(s@.take(i as int), k) == char_views(done@).push(cur@),
        decreases s.len() - i,
    {
        let c = s[i];
        let ghost pre = s@.take(i as int);
        assert(s@.take(i + 1).drop_last() =~= pre);
        assert(s@.take(i + 1).last() == c);
        if is_sep_exec(k, c) {
            let piece = cur;
            done.push(piece);
            cur = Vec::new();
            assert(char_views(done@) =~= split_pieces(pre, k));
            assert(split_pieces(s@.take(i + 1), k) =~= char_views(done@).push(cur@));
        } else {
            let ghost old_done = char_views(done@);
            let ghost old_cur = cur@;
            cur.push(c);
            assert(split_pieces(s@.take(i + 1), k) =~= char_views(done@).push(cur@));
        }
        i = i + 1;
    }
    assert(s@.take(s.len() as int) =~= s@);
    done.push(cur);
    done
}

/// `split` followed by dropping the empty pieces; for `Sep::Whitespace`
/// this is `str::split_whitespace`.
pub fn split_words(s: &Vec<char>, k: Sep) -> (r: Vec<Vec<char>>)
    ensures
        char_views(r@) == words(s@, k),
{
    let pieces = split_chars(s, k);
    let mut out: Vec<Vec<char>> = Vec::new();
    let mut i: usize = 0;
    while i < pieces.len()
        invariant
            i <= pieces.len(),
            char_views(pieces@) == split_pieces(s@, k),
            char_views(out@) == nonempty_pieces(char_views(pieces@).take(i as int)),
        decreases pieces.len() - i,
    {
        let ghost pv = char_views(pieces@);
        assert(pv.take(i + 1).drop_last() =~= pv.take(i as int));
        assert(pv.take(i + 1).last() == pieces[i as int]@);
        if pieces[i].len() > 0 {
            let p = clone_chars(&pieces[i]);
            out.push(p);
            assert(char_views(out@) =~= nonempty_pieces(pv.take(i + 1)));
        }
        i = i + 1;
    }
    assert(char_views(pieces@).take(pieces.len() as int) =~= char_views(pieces@));
    out
}

/// A copy of a character vector.
pub fn clone_chars(v: &Vec<char>) -> (r: Vec<char>)
    ensures
        r@ == v@,
{
    sub_vec(v, 0, v.len())
}

/// What `str::to_lowercase` returns for `s` (the Unicode lowercase
/// mapping, which can change the length).
pub uninterp spec fn lowercase(s: Seq<char>) -> Seq<char>;

/// Lowercases the characters through std's `str::to_lowercase`; the result
/// is `lowercase` of the input.
#[verifier::external_body]
pub(crate) fn to_lowercase_chars(v: &Vec<char>) -> (r: Vec<char>)
    ensures
        r@ == lowercase(v@),
{
    v.iter().collect::<String>().to_lowercase().chars().collect()
}

} // verus!
