//! Ids for games the user adds: a slug of the name, made unique by a
//! numeric suffix.

use vstd::prelude::*;

use crate::desktop::string_views;
use crate::fmt::{decimal, decimal_chars, lemma_decimal_digits};
use crate::text::{chars_eq, chars_of, lowercase, push_all, string_from_chars, to_lowercase_chars};

verus! {

/// An ASCII letter or digit (`char::is_ascii_alphanumeric`).
pub open spec fn is_ascii_alnum(c: char) -> bool {
    ('0' <= c && c <= '9') || ('a' <= c && c <= 'z') || ('A' <= c && c <= 'Z')
}

/// The slug built so far and whether it ends in a separator: letters and
/// digits are kept, every run of other characters becomes one `-`, and
/// nothing is added before the first letter or digit.
pub open spec fn slug_state(s: Seq<char>) -> (Seq<char>, bool)
    decreases s.len(),
{
    if s.len() == 0 {
        (Seq::empty(), true)
    } else {
        let (out, dash) = slug_state(s.drop_last());
        let c = s.last();
        if is_ascii_alnum(c) {
            (out.push(c), false)
        } else if !dash {
            (out.push('-'), true)
        } else {
            (out, dash)
        }
    }
}

/// `s` without trailing dashes.
pub open spec fn strip_dashes(s: Seq<char>) -> Seq<char>
    decreases s.len(),
{
    if s.len() > 0 && s.last() == '-' {
        strip_dashes(s.drop_last())
    } else {
        s
    }
}

/// The slug of a name: lowercased, letters and digits kept, other runs
/// turned into single dashes, no dash at either end.
pub open spec fn slug(name: Seq<char>) -> Seq<char> {
    strip_dashes(slug_state(lowercase(name)).0)
}

fn is_ascii_alnum_exec(c: char) -> (r: bool)
    ensures
        r == is_ascii_alnum(c),
{
    ('0' <= c && c <= '9') || ('a' <= c && c <= 'z') || ('A' <= c && c <= 'Z')
}

/// The slug of a name (see `slug`), used as the id of a custom game.
pub fn slugify(name: &str) -> (r: String)
    ensures
        r@ == slug(name@),
{
    let chars = chars_of(name);
    let lower = to_lowercase_chars(&chars);
    let mut out: Vec<char> = Vec::new();
    let mut last_dash = true;
    let mut i: usize = 0;
    while i < lower.len()
        invariant
            i <= lower@.len(),
            slug_state(lower@.subrange(0, i as int)) == (out@, last_dash),
        decreases lower.len() - i,
    {
        let c = lower[i];
        proof {
            let pre = lower@.subrange(0, i as int + 1);
            assert(pre.drop_last() =~= lower@.subrange(0, i as int));
            assert(pre.last() == c);
        }
        if is_ascii_alnum_exec(c) {
            out.push(c);
            last_dash = false;
        } else if !last_dash {
            out.push('-');
            last_dash = true;
        }
        i = i + 1;
    }
    assert(lower@.subrange(0, lower@.len() as int) =~= lower@);
    while out.len() > 0 && out[out.len() - 1] == '-'
        invariant
            strip_dashes(out@) == slug(name@),
        decreases out.len(),
    {
        let ghost before = out@;
        out.pop();
        assert(out@ =~= before.drop_last());
    }
    string_from_chars(&out)
}

/// A slug contains only lowercase ASCII letters, digits and dashes, never
/// two dashes in a row, and no dash at either end.
pub proof fn lemma_slug_shape(name: Seq<char>)
    ensures
        forall|i: int|
            0 <= i < slug(name).len() ==> is_ascii_alnum(#[trigger] slug(name)[i]) || slug(name)[i] == '-',
        forall|i: int| 0 <= i < slug(name).len() - 1 ==> !(#[trigger] slug(name)[i] == '-' && slug(name)[i + 1] == '-'),
        slug(name).len() > 0 ==> slug(name)[0] != '-' && slug(name).last() != '-',
{
    let l = lowercase(name);
    lemma_slug_state_shape(l);
    lemma_strip_dashes(slug_state(l).0);
}

spec fn slug_shaped(s: Seq<char>) -> bool {
    &&& forall|i: int| 0 <= i < s.len() ==> is_ascii_alnum(#[trigger] s[i]) || s[i] == '-'
    &&& forall|i: int| 0 <= i < s.len() - 1 ==> !(#[trigger] s[i] == '-' && s[i + 1] == '-')
    &&& s.len() > 0 ==> s[0] != '-'
}

proof fn lemma_slug_state_shape(s: Seq<char>)
    ensures
        slug_shaped(slug_state(s).0),
        slug_state(s).1 <==> (slug_state(s).0.len() == 0 || slug_state(s).0.last() == '-'),
    decreases s.len(),
{
    if s.len() > 0 {
        lemma_slug_state_shape(s.drop_last());
        let (out, dash) = slug_state(s.drop_last());
        let c = s.last();
        if is_ascii_alnum(c) {
            let o = out.push(c);
            assert forall|i: int| 0 <= i < o.len() - 1 implies !(#[trigger] o[i] == '-' && o[i + 1] == '-') by {
                if i < out.len() - 1 {
                    assert(o[i] == out[i] && o[i + 1] == out[i + 1]);
                }
            }
            assert forall|i: int| 0 <= i < o.len() implies is_ascii_alnum(#[trigger] o[i]) || o[i] == '-' by {
                if i < out.len() {
                    assert(o[i] == out[i]);
                }
            }
        } else if !dash {
            let o = out.push('-');
            assert forall|i: int| 0 <= i < o.len() - 1 implies !(#[trigger] o[i] == '-' && o[i + 1] == '-') by {
                if i < out.len() - 1 {
                    assert(o[i] == out[i] && o[i + 1] == out[i + 1]);
                } else {
                    assert(o[i] == out.last());
                }
            }
            assert forall|i: int| 0 <= i < o.len() implies is_ascii_alnum(#[trigger] o[i]) || o[i] == '-' by {
                if i < out.len() {
                    assert(o[i] == out[i]);
                }
            }
        }
    }
}

proof fn lemma_strip_dashes(s: Seq<char>)
    requires
        slug_shaped(s),
    ensures
        slug_shaped(strip_dashes(s)),
        strip_dashes(s).len() > 0 ==> strip_dashes(s).last() != '-',
    decreases s.len(),
{
    if s.len() > 0 && s.last() == '-' {
        let t = s.drop_last();
        assert forall|i: int| 0 <= i < t.len() - 1 implies !(#[trigger] t[i] == '-' && t[i + 1] == '-') by {
            assert(t[i] == s[i] && t[i + 1] == s[i + 1]);
        }
        assert forall|i: int| 0 <= i < t.len() implies is_ascii_alnum(#[trigger] t[i]) || t[i] == '-' by {
            assert(t[i] == s[i]);
        }
        if t.len() > 0 {
            assert(t[0] == s[0]);
        }
        lemma_strip_dashes(t);
    }
}

/// The `n`-th alternative to a taken id: `base-n`.
pub open spec fn id_candidate(base: Seq<char>, n: nat) -> Seq<char> {
    base + "-"@ + decimal(n)
}

/// `base` when it is free, else `base-n` for the least `n >= 2` that is.
pub open spec fn is_unique_id(base: Seq<char>, taken: Seq<Seq<char>>, id: Seq<char>) -> bool {
    if !taken.contains(base) {
        id == base
    } else {
        exists|n: nat|
            #![trigger id_candidate(base, n)]
            n >= 2 && id == id_candidate(base, n) && !taken.contains(id_candidate(base, n)) && forall|k: nat|
                2 <= k < n ==> taken.contains(#[trigger] id_candidate(base, k))
    }
}

/// `base` and the candidates `base-2` up to `base-n`.
spec fn candidates(base: Seq<char>, n: nat) -> Set<Seq<char>>
    decreases n,
{
    if n < 2 {
        set![base]
    } else {
        candidates(base, (n - 1) as nat).insert(id_candidate(base, n))
    }
}

proof fn lemma_decimal_injective(a: nat, b: nat)
    requires
        decimal(a) == decimal(b),
    ensures
        a == b,
{
    lemma_decimal_digits(a);
    lemma_decimal_digits(b);
}

proof fn lemma_candidate_injective(base: Seq<char>, a: nat, b: nat)
    requires
        id_candidate(base, a) == id_candidate(base, b),
    ensures
        a == b,
{
    reveal_strlit("-");
    let ca = id_candidate(base, a);
    let cb = id_candidate(base, b);
    lemma_decimal_digits(a);
    lemma_decimal_digits(b);
    assert(ca.len() == cb.len());
    assert(decimal(a) =~= ca.subrange(base.len() as int + 1, ca.len() as int));
    assert(decimal(b) =~= cb.subrange(base.len() as int + 1, cb.len() as int));
    lemma_decimal_injective(a, b);
}

proof fn lemma_candidates(base: Seq<char>, n: nat)
    requires
        n >= 1,
    ensures
        candidates(base, n).finite(),
        candidates(base, n).len() == n,
        forall|x: Seq<char>|
            #[trigger] candidates(base, n).contains(x) ==> x == base || exists|k: nat|
                2 <= k <= n && x == id_candidate(base, k),
    decreases n,
{
    if n >= 2 {
        lemma_candidates(base, (n - 1) as nat);
        let c = id_candidate(base, n);
        let prev = candidates(base, (n - 1) as nat);
        reveal_strlit("-");
        lemma_decimal_digits(n);
        if prev.contains(c) {
            if c == base {
                assert(c.len() > base.len());
            } else {
                let k = choose|k: nat| 2 <= k <= n - 1 && c == id_candidate(base, k);
                lemma_candidate_injective(base, k, n);
            }
        }
        assert forall|x: Seq<char>| #[trigger] candidates(base, n).contains(x) implies x == base || exists|
            k: nat,
        | 2 <= k <= n && x == id_candidate(base, k) by {
            if x != c && x != base {
                assert(prev.contains(x));
                let k = choose|k: nat| 2 <= k <= n - 1 && x == id_candidate(base, k);
                assert(2 <= k <= n && x == id_candidate(base, k));
            }
        }
    } else {
        assert(set![base].len() == 1) by {
            assert(Set::<Seq<char>>::empty().insert(base).len() == 1);
        }
    }
}

/// With `base` and `base-2` .. `base-n` all taken, there are at least `n`
/// distinct taken ids.
proof fn lemma_pigeonhole(base: Seq<char>, taken: Seq<Seq<char>>, n: nat)
    requires
        n >= 1,
        taken.contains(base),
        forall|k: nat| 2 <= k <= n ==> taken.contains(#[trigger] id_candidate(base, k)),
    ensures
        n <= taken.len(),
{
    lemma_candidates(base, n);
    let s = taken.to_set();
    assert(candidates(base, n).subset_of(s)) by {
        assert forall|x: Seq<char>| #[trigger] candidates(base, n).contains(x) implies s.contains(x) by {
            if x != base {
                let k = choose|k: nat| 2 <= k <= n && x == id_candidate(base, k);
                assert(taken.contains(id_candidate(base, k)));
            }
        }
    }
    vstd::seq_lib::seq_to_set_is_finite(taken);
    vstd::set_lib::lemma_len_subset(candidates(base, n), s);
    taken.lemma_cardinality_of_set();
}

fn contains_id(taken: &[String], id: &Vec<char>) -> (r: bool)
    ensures
        r == string_views(taken@).contains(id@),
{
    let mut i: usize = 0;
    while i < taken.len()
        invariant
            i <= taken@.len(),
            forall|k: int| 0 <= k < i ==> taken@[k]@ != id@,
        decreases taken.len() - i,
    {
        let t = chars_of(taken[i].as_str());
        if chars_eq(&t, id) {
            assert(string_views(taken@)[i as int] == id@);
            return true;
        }
        i = i + 1;
    }
    proof {
        if string_views(taken@).contains(id@) {
            let k = choose|k: int| 0 <= k < taken@.len() && string_views(taken@)[k] == id@;
            assert(taken@[k]@ == id@);
        }
    }
    false
}

fn candidate_chars(base: &Vec<char>, n: u64) -> (r: Vec<char>)
    ensures
        r@ == id_candidate(base@, n as nat),
{
    let mut out = crate::text::clone_chars(base);
    out.push('-');
    push_all(&mut out, &decimal_chars(n));
    proof {
        reveal_strlit("-");
    }
    assert(out@ =~= id_candidate(base@, n as nat));
    out
}

/// `base` if no taken id equals it, else `base-2`, `base-3`, ... up to
/// the first one that is free (see `is_unique_id`).
pub fn unique_id(base: &str, taken: &[String]) -> (r: String)
    requires
        taken@.len() < 0xffff_ffff_ffff_ffff,
    ensures
        is_unique_id(base@, string_views(taken@), r@),
        !string_views(taken@).contains(r@),
{
    let b = chars_of(base);
    if !contains_id(taken, &b) {
        return base.to_owned();
    }
    let ghost tv = string_views(taken@);
    proof {
        assert(tv.len() == taken@.len());
        assert(tv.len() >= 1);
    }
    let mut n: u64 = 2;
    let mut cand = candidate_chars(&b, n);
    while contains_id(taken, &cand)
        invariant
            2 <= n <= taken@.len() + 1,
            b@ == base@,
            tv == string_views(taken@),
            tv.contains(base@),
            taken@.len() < 0xffff_ffff_ffff_ffff,
            cand@ == id_candidate(base@, n as nat),
            forall|k: nat| 2 <= k < n ==> tv.contains(#[trigger] id_candidate(base@, k)),
        decreases taken@.len() + 1 - n,
    {
        proof {
            assert forall|k: nat| 2 <= k <= n implies tv.contains(#[trigger] id_candidate(base@, k)) by {}
            lemma_pigeonhole(base@, tv, n as nat);
        }
        n = n + 1;
        cand = candidate_chars(&b, n);
    }
    proof {
        let nn = n as nat;
        assert(nn >= 2 && cand@ == id_candidate(base@, nn) && !tv.contains(id_candidate(base@, nn)));
    }
    string_from_chars(&cand)
}

} // verus!
