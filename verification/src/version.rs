//! Tolerant version ordering and the update check built on it.

use vstd::prelude::*;

use crate::fmt::{all_digits, all_digits_exec, any_digit_exec, digits_value, is_digit, parse_u64_digits};
use crate::order::{compare_chars, int_order, lemma_lex_equal, lemma_lex_flip, lex_order, Order};
use crate::text::{
    char_views, chars_of, clone_chars, is_sep, is_ws, nonempty_pieces, split_pieces, split_words, trim,
    trim_chars, trim_end, trim_start, words, Sep,
};
use std::cmp::Ordering;

verus! {

/// The version text without a leading `v`/`V` that is followed by a digit.
pub open spec fn strip_v(t: Seq<char>) -> Seq<char> {
    if t.len() > 1 && (t[0] == 'v' || t[0] == 'V') && is_digit(t[1]) {
        t.drop_first()
    } else {
        t
    }
}

/// The segments of a version: trimmed, `v` stripped, split on `.`, `-`
/// and `_`, empty pieces dropped.
pub open spec fn version_segments(v: Seq<char>) -> Seq<Seq<char>> {
    words(strip_v(trim(v)), Sep::VersionMark)
}

/// `str::parse::<u64>` of a digit string.
pub open spec fn u64_value(s: Seq<char>) -> Option<int> {
    if s.len() > 0 && all_digits(s) && digits_value(s) <= u64::MAX {
        Some(digits_value(s) as int)
    } else {
        None
    }
}

/// Order of two segments: numerically when both are digit strings that
/// fit in a `u64`, lexicographically otherwise.
pub open spec fn segment_order(a: Seq<char>, b: Seq<char>) -> Order {
    if all_digits(a) && all_digits(b) {
        match (u64_value(a), u64_value(b)) {
            (Some(x), Some(y)) => int_order(x, y),
            _ => lex_order(a, b),
        }
    } else {
        lex_order(a, b)
    }
}

/// Segment `i`, or `"0"` past the end.
pub open spec fn segment_at(s: Seq<Seq<char>>, i: int) -> Seq<char> {
    if 0 <= i < s.len() {
        s[i]
    } else {
        seq!['0']
    }
}

/// The order decided by the first differing segment from position `i` on.
pub open spec fn segments_order_from(sa: Seq<Seq<char>>, sb: Seq<Seq<char>>, i: int) -> Order
    decreases (if sa.len() > sb.len() {
        sa.len()
    } else {
        sb.len()
    }) - i,
{
    if i < 0 || (i >= sa.len() && i >= sb.len()) {
        Order::Equal
    } else {
        let o = segment_order(segment_at(sa, i), segment_at(sb, i));
        if o != Order::Equal {
            o
        } else {
            segments_order_from(sa, sb, i + 1)
        }
    }
}

/// The order of two version strings.
pub open spec fn version_order(a: Seq<char>, b: Seq<char>) -> Order {
    segments_order_from(version_segments(a), version_segments(b), 0)
}

/// The `Order` an `Ordering` stands for.
pub open spec fn order_of(o: Ordering) -> Order {
    match o {
        Ordering::Less => Order::Less,
        Ordering::Equal => Order::Equal,
        Ordering::Greater => Order::Greater,
    }
}

/// A version "looks like" one when it is not blank and holds a digit.
pub open spec fn looks_like_version(v: Seq<char>) -> bool {
    trim(v).len() > 0 && exists|k: int| 0 <= k < v.len() && is_digit(#[trigger] v[k])
}

/// `has_update`: both versions present and plausible, and the latest one
/// orders strictly after the installed one.
pub open spec fn update_available(installed: Option<Seq<char>>, latest: Option<Seq<char>>) -> bool {
    match (installed, latest) {
        (Some(i), Some(l)) => looks_like_version(i) && looks_like_version(l) && version_order(l, i)
            == Order::Greater,
        _ => false,
    }
}

proof fn lemma_segment_flip(a: Seq<char>, b: Seq<char>)
    ensures
        segment_order(b, a) == segment_order(a, b).flip(),
{
    lemma_lex_flip(a, b);
}

proof fn lemma_segment_refl(a: Seq<char>)
    ensures
        segment_order(a, a) == Order::Equal,
{
    lemma_lex_equal(a, a);
}

proof fn lemma_from_flip(sa: Seq<Seq<char>>, sb: Seq<Seq<char>>, i: int)
    ensures
        segments_order_from(sb, sa, i) == segments_order_from(sa, sb, i).flip(),
    decreases (if sa.len() > sb.len() {
        sa.len()
    } else {
        sb.len()
    }) - i,
{
    if !(i < 0 || (i >= sa.len() && i >= sb.len())) {
        lemma_segment_flip(segment_at(sa, i), segment_at(sb, i));
        lemma_from_flip(sa, sb, i + 1);
    }
}

proof fn lemma_from_refl(sa: Seq<Seq<char>>, i: int)
    ensures
        segments_order_from(sa, sa, i) == Order::Equal,
    decreases sa.len() - i,
{
    if !(i < 0 || i >= sa.len()) {
        lemma_segment_refl(segment_at(sa, i));
        lemma_from_refl(sa, i + 1);
    }
}

/// Comparing two versions the other way round gives the reverse order.
pub proof fn lemma_version_order_antisymmetric(a: Seq<char>, b: Seq<char>)
    ensures
        version_order(b, a) == version_order(a, b).flip(),
{
    lemma_from_flip(version_segments(a), version_segments(b), 0);
}

/// Every version is equal to itself.
pub proof fn lemma_version_order_reflexive(a: Seq<char>)
    ensures
        version_order(a, a) == Order::Equal,
{
    lemma_from_refl(version_segments(a), 0);
}

/// An update is never reported from a version to itself, and when one is
/// reported the reverse comparison says the installed version is older.
pub proof fn lemma_update_is_strict(installed: Seq<char>, latest: Seq<char>)
    ensures
        !update_available(Some(installed), Some(installed)),
        update_available(Some(installed), Some(latest)) ==> version_order(installed, latest)
            == Order::Less,
{
    lemma_version_order_reflexive(installed);
    lemma_version_order_antisymmetric(latest, installed);
}

proof fn lemma_trim_start_len(s: Seq<char>)
    ensures
        trim_start(s).len() <= s.len(),
        s.len() > 0 && is_ws(s[0]) ==> trim_start(s).len() < s.len(),
        trim_start(s).len() == s.len() ==> trim_start(s) == s,
    decreases s.len(),
{
    if s.len() > 0 && is_ws(s[0]) {
        lemma_trim_start_len(s.drop_first());
    }
}

proof fn lemma_trim_end_len(s: Seq<char>)
    ensures
        trim_end(s).len() <= s.len(),
        s.len() > 0 && is_ws(s.last()) ==> trim_end(s).len() < s.len(),
    decreases s.len(),
{
    if s.len() > 0 && is_ws(s.last()) {
        lemma_trim_end_len(s.drop_last());
    }
}

/// A trimmed text starts and ends with something other than whitespace.
proof fn lemma_trimmed_ends(a: Seq<char>)
    requires
        a == trim(a),
    ensures
        a.len() > 0 ==> !is_ws(a[0]) && !is_ws(a.last()),
{
    let t = trim_start(a);
    lemma_trim_start_len(a);
    lemma_trim_end_len(t);
    if a.len() > 0 {
        assert(t.len() == a.len());
        assert(t == a);
        lemma_trim_end_len(a);
    }
}

/// A text that starts and ends with something other than whitespace is
/// its own trim.
proof fn lemma_trim_noop_ends(s: Seq<char>)
    requires
        s.len() > 0 ==> !is_ws(s[0]) && !is_ws(s.last()),
    ensures
        trim(s) == s,
{
}

proof fn lemma_segments_pad(sa: Seq<Seq<char>>, sb: Seq<Seq<char>>, i: int)
    requires
        0 <= i,
        sb == sa.push(seq!['0']),
    ensures
        segments_order_from(sa, sb, i) == Order::Equal,
    decreases sb.len() - i,
{
    if i < sb.len() {
        if i < sa.len() {
            lemma_segment_refl(sa[i]);
            assert(segment_at(sb, i) == sa[i]);
        } else {
            lemma_segment_refl(seq!['0']);
            assert(segment_at(sb, i) == seq!['0']);
        }
        lemma_segments_pad(sa, sb, i + 1);
    }
}

/// A missing trailing segment counts as `0`, and a leading `v` or `V`
/// before a digit is ignored: for a trimmed version `a`, `a` equals
/// `a.0`, and when `a` starts with a digit it equals `va` and `Va`.
pub proof fn lemma_version_equivalences(a: Seq<char>)
    requires
        a == trim(a),
    ensures
        version_order(a, a + ".0"@) == Order::Equal,
        a.len() > 0 && is_digit(a[0]) ==> version_order(a, seq!['v'] + a) == Order::Equal
            && version_order(a, seq!['V'] + a) == Order::Equal,
{
    reveal_strlit(".0");
    lemma_trimmed_ends(a);
    let b = a + ".0"@;
    assert(b =~= a.push('.').push('0'));
    lemma_trim_noop_ends(b);
    assert(strip_v(b) =~= strip_v(a).push('.').push('0'));
    let s = strip_v(a);
    let k = Sep::VersionMark;
    assert(s.push('.').push('0').drop_last() =~= s.push('.'));
    assert(s.push('.').drop_last() =~= s);
    assert(split_pieces(s.push('.').push('0'), k) =~= split_pieces(s, k).push(seq!['0'])) by {
        crate::text::lemma_split_pieces_nonempty(s, k);
        assert(split_pieces(s.push('.'), k) == split_pieces(s, k).push(Seq::<char>::empty()));
        assert(Seq::<char>::empty().push('0') =~= seq!['0']);
    }
    let ps = split_pieces(s, k);
    assert(ps.push(seq!['0']).drop_last() =~= ps);
    assert(nonempty_pieces(ps.push(seq!['0'])) == nonempty_pieces(ps).push(seq!['0']));
    lemma_segments_pad(version_segments(a), version_segments(b), 0);
    if a.len() > 0 && is_digit(a[0]) {
        lemma_version_order_reflexive(a);
        let v = seq!['v'] + a;
        let w = seq!['V'] + a;
        lemma_trim_noop_ends(v);
        lemma_trim_noop_ends(w);
        assert(v.drop_first() =~= a);
        assert(w.drop_first() =~= a);
        assert(strip_v(v) == a);
        assert(strip_v(w) == a);
        assert(strip_v(a) == a);
    }
}

/// `.`, `-` and `_` all split segments: for runs of ASCII digits `a` and
/// `b`, the version `a<sep>b` has exactly the two segments `a` and `b`,
/// so the three separators give equal versions.
pub proof fn lemma_version_separators(a: Seq<char>, b: Seq<char>, sep: char)
    requires
        a.len() > 0,
        b.len() > 0,
        all_digits(a),
        all_digits(b),
        sep == '.' || sep == '-' || sep == '_',
    ensures
        version_segments(a.push(sep) + b) == seq![a, b],
        version_order(a.push(sep) + b, a.push('.') + b) == Order::Equal,
        version_order(a.push(sep) + b, a.push('_') + b) == Order::Equal,
        version_order(a.push(sep) + b, a.push('-') + b) == Order::Equal,
{
    lemma_segments_of(a, b, sep);
    lemma_segments_of(a, b, '.');
    lemma_segments_of(a, b, '_');
    lemma_segments_of(a, b, '-');
    lemma_version_order_reflexive(a.push(sep) + b);
}

proof fn lemma_segments_of(a: Seq<char>, b: Seq<char>, sep: char)
    requires
        a.len() > 0,
        b.len() > 0,
        all_digits(a),
        all_digits(b),
        sep == '.' || sep == '-' || sep == '_',
    ensures
        version_segments(a.push(sep) + b) == seq![a, b],
        looks_like_version(a.push(sep) + b),
{
    let k = Sep::VersionMark;
    let v = a.push(sep) + b;
    assert(is_digit(a[0]) && is_digit(b[b.len() - 1]));
    assert(v[0] == a[0]);
    assert(v.last() == b[b.len() - 1]);
    lemma_trim_noop_ends(v);
    assert(strip_v(v) == v);
    assert(is_digit(v[0]));
    assert forall|i: int| 0 <= i < a.len() implies !is_sep(k, #[trigger] a[i]) by {
        assert(is_digit(a[i]));
    }
    assert forall|i: int| 0 <= i < b.len() implies !is_sep(k, #[trigger] b[i]) by {
        assert(is_digit(b[i]));
    }
    crate::text::lemma_split_pieces_parts(Seq::empty(), sep, a, k);
    crate::text::lemma_split_pieces_parts(a, sep, b, k);
    let ps = seq![a, b];
    assert(split_pieces(v, k) == ps);
    assert(ps.drop_last() =~= seq![a]);
    assert(seq![a].drop_last() =~= Seq::<Seq<char>>::empty());
    assert(nonempty_pieces(Seq::<Seq<char>>::empty()) == Seq::<Seq<char>>::empty());
    assert(seq![a].last() == a);
    assert(nonempty_pieces(seq![a]) =~= seq![a]);
    assert(ps.last() == b);
    assert(nonempty_pieces(ps) =~= ps);
}

/// The segments after a shared leading run compare as numbers: for runs
/// of ASCII digits with values that fit a `u64`, `a<s1>b` orders against
/// `a<s2>c` as `b` against `c` numerically (so `1_10` is after `1_9`).
pub proof fn lemma_numeric_segments(a: Seq<char>, b: Seq<char>, c: Seq<char>, s1: char, s2: char)
    requires
        a.len() > 0,
        b.len() > 0,
        c.len() > 0,
        all_digits(a),
        all_digits(b),
        all_digits(c),
        digits_value(b) <= u64::MAX,
        digits_value(c) <= u64::MAX,
        s1 == '.' || s1 == '-' || s1 == '_',
        s2 == '.' || s2 == '-' || s2 == '_',
    ensures
        version_order(a.push(s1) + b, a.push(s2) + c) == int_order(digits_value(b) as int, digits_value(c) as int),
        update_available(Some(a.push(s2) + c), Some(a.push(s1) + b)) == (digits_value(b) > digits_value(c)),
{
    lemma_segments_of(a, b, s1);
    lemma_segments_of(a, c, s2);
    lemma_segment_refl(a);
    let sa = seq![a, b];
    let sb = seq![a, c];
    assert(segment_at(sa, 0) == a && segment_at(sb, 0) == a);
    assert(segment_at(sa, 1) == b && segment_at(sb, 1) == c);
    assert(segment_order(b, c) == int_order(digits_value(b) as int, digits_value(c) as int));
    assert(segments_order_from(sa, sb, 2) == Order::Equal);
    assert(segments_order_from(sa, sb, 1) == segment_order(b, c));
    assert(segments_order_from(sa, sb, 0) == segments_order_from(sa, sb, 1));
}

/// The version text with surrounding whitespace and a `v` before a digit
/// removed.
fn stripped(v: &str) -> (r: Vec<char>)
    ensures
        r@ == strip_v(trim(v@)),
{
    let all = chars_of(v);
    let t = trim_chars(&all);
    if t.len() > 1 && (t[0] == 'v' || t[0] == 'V') && '0' <= t[1] && t[1] <= '9' {
        let n = t.len();
        let mut out: Vec<char> = Vec::new();
        let mut i: usize = 1;
        while i < n
            invariant
                1 <= i <= n == t.len(),
                out@ == t@.subrange(1, i as int),
            decreases n - i,
        {
            out.push(t[i]);
            i = i + 1;
            assert(out@ =~= t@.subrange(1, i as int));
        }
        assert(t@.drop_first() =~= t@.subrange(1, n as int));
        out
    } else {
        t
    }
}

/// The segments of a version string.
fn segments(v: &str) -> (r: Vec<Vec<char>>)
    ensures
        char_views(r@) == version_segments(v@),
{
    let s = stripped(v);
    split_words(&s, Sep::VersionMark)
}

/// Order of two segments.
fn compare_segment(a: &Vec<char>, b: &Vec<char>) -> (r: Order)
    ensures
        r == segment_order(a@, b@),
{
    let an = all_digits_exec(a);
    let bn = all_digits_exec(b);
    if an && bn {
        match (parse_u64_digits(a), parse_u64_digits(b)) {
            (Some(x), Some(y)) => {
                if x < y {
                    Order::Less
                } else if x == y {
                    Order::Equal
                } else {
                    Order::Greater
                }
            },
            _ => compare_chars(a, b),
        }
    } else {
        compare_chars(a, b)
    }
}

fn segment_or_zero(s: &Vec<Vec<char>>, i: usize) -> (r: Vec<char>)
    ensures
        r@ == segment_at(char_views(s@), i as int),
{
    if i < s.len() {
        clone_chars(&s[i])
    } else {
        let mut z: Vec<char> = Vec::new();
        z.push('0');
        z
    }
}

/// Order of two version strings, segment by segment.
fn version_compare(a: &str, b: &str) -> (r: Order)
    ensures
        r == version_order(a@, b@),
{
    let sa = segments(a);
    let sb = segments(b);
    let len = if sa.len() > sb.len() {
        sa.len()
    } else {
        sb.len()
    };
    let ghost va = char_views(sa@);
    let ghost vb = char_views(sb@);
    let mut i: usize = 0;
    while i < len
        invariant
            i <= len,
            len == if va.len() > vb.len() {
                va.len()
            } else {
                vb.len()
            },
            va == char_views(sa@),
            vb == char_views(sb@),
            va == version_segments(a@),
            vb == version_segments(b@),
            segments_order_from(va, vb, 0) == segments_order_from(va, vb, i as int),
        decreases len - i,
    {
        let x = segment_or_zero(&sa, i);
        let y = segment_or_zero(&sb, i);
        let o = compare_segment(&x, &y);
        match o {
            Order::Equal => {},
            _ => {
                return o;
            },
        }
        i = i + 1;
    }
    Order::Equal
}

/// Tolerant version ordering: strips a leading v/V, splits on `.-_`,
/// numeric segments compare numerically, anything else lexically.
/// Missing trailing segments are treated as 0, so "1.0" == "v1.0.0".
pub fn compare_versions(a: &str, b: &str) -> (r: Ordering)
    ensures
        order_of(r) == version_order(a@, b@),
{
    match version_compare(a, b) {
        Order::Less => Ordering::Less,
        Order::Equal => Ordering::Equal,
        Order::Greater => Ordering::Greater,
    }
}

/// True when the text is not blank and holds an ASCII digit.
fn plausible_version(v: &str) -> (r: bool)
    ensures
        r == looks_like_version(v@),
{
    let all = chars_of(v);
    let t = trim_chars(&all);
    t.len() > 0 && any_digit_exec(&all)
}

/// Whether `latest` is a newer version than `installed`; false when
/// either is missing or does not look like a version.
pub fn has_update(installed: Option<&str>, latest: Option<&str>) -> (r: bool)
    ensures
        r == update_available(
            match installed {
                Some(s) => Some(s@),
                None => None,
            },
            match latest {
                Some(s) => Some(s@),
                None => None,
            },
        ),
{
    match (installed, latest) {
        (Some(i), Some(l)) => {
            if plausible_version(i) && plausible_version(l) {
                match version_compare(l, i) {
                    Order::Greater => true,
                    _ => false,
                }
            } else {
                false
            }
        },
        _ => false,
    }
}

} // verus!
