//! Stable ordering of items by a character-sequence key (the order of
//! `sort_by` on `str` keys).

use vstd::prelude::*;

use crate::order::{compare_chars, lemma_lex_equal, lemma_lex_flip, lemma_lex_transitive, lex_order, Order};
use crate::text::char_views;

verus! {

/// `p` lists every position of `keys` once, in the order of a stable
/// sort by key: keys never decrease along `p`, and equal keys keep their
/// original relative order.
pub open spec fn is_stable_order(keys: Seq<Seq<char>>, p: Seq<int>) -> bool {
    &&& p.len() == keys.len()
    &&& forall|i: int| 0 <= i < p.len() ==> 0 <= #[trigger] p[i] < keys.len()
    &&& forall|i: int, j: int| 0 <= i < j < p.len() ==> #[trigger] p[i] != #[trigger] p[j]
    &&& forall|i: int, j: int|
        0 <= i < j < p.len() ==> lex_order(keys[#[trigger] p[i]], keys[#[trigger] p[j]]) != Order::Greater
    &&& forall|i: int, j: int|
        0 <= i < j < p.len() && keys[#[trigger] p[i]] == keys[#[trigger] p[j]] ==> p[i] < p[j]
}

/// The lexicographic order is a total preorder.
pub proof fn lemma_lex_le_trans(a: Seq<char>, b: Seq<char>, c: Seq<char>)
    ensures
        lex_order(a, b) != Order::Greater && lex_order(b, c) != Order::Greater ==> lex_order(a, c)
            != Order::Greater,
        lex_order(a, b) != Order::Less && lex_order(b, c) != Order::Less ==> lex_order(a, c)
            != Order::Less,
        lex_order(a, b) == Order::Equal && lex_order(b, c) == Order::Equal ==> lex_order(a, c)
            == Order::Equal,
{
    if lex_order(a, b) != Order::Greater && lex_order(b, c) != Order::Greater {
        lemma_lex_transitive(a, b, c, Order::Less);
    }
    if lex_order(a, b) != Order::Less && lex_order(b, c) != Order::Less {
        lemma_lex_transitive(a, b, c, Order::Greater);
    }
    lemma_lex_equal(a, b);
    lemma_lex_equal(b, c);
    lemma_lex_equal(a, c);
}

spec fn sorted_prefix(keys: Seq<Seq<char>>, idx: Seq<usize>, m: int) -> bool {
    &&& forall|a: int| 0 <= a < idx.len() ==> #[trigger] idx[a] < m
    &&& forall|a: int, b: int| 0 <= a < b < idx.len() ==> #[trigger] idx[a] != #[trigger] idx[b]
    &&& forall|a: int, b: int|
        0 <= a < b < idx.len() ==> lex_order(keys[#[trigger] idx[a] as int], keys[#[trigger] idx[b] as int])
            != Order::Greater
    &&& forall|a: int, b: int|
        0 <= a < b < idx.len() && keys[#[trigger] idx[a] as int] == keys[#[trigger] idx[b] as int]
            ==> idx[a] < idx[b]
}

proof fn lemma_insert(keys: Seq<Seq<char>>, before: Seq<usize>, pos: int, m: int)
    requires
        0 <= m < keys.len(),
        m <= usize::MAX,
        0 <= pos <= before.len(),
        sorted_prefix(keys, before, m),
        forall|a: int| pos <= a < before.len() ==> lex_order(keys[#[trigger] before[a] as int], keys[m])
            == Order::Greater,
        pos > 0 ==> lex_order(keys[before[pos - 1] as int], keys[m]) != Order::Greater,
    ensures
        sorted_prefix(keys, before.insert(pos, m as usize), m + 1),
{
    let x = keys[m];
    let idx = before.insert(pos, m as usize);
    assert forall|a: int| pos <= a < before.len() implies lex_order(x, keys[#[trigger] before[a] as int])
        == Order::Less && x != keys[before[a] as int] by {
        lemma_lex_flip(keys[before[a] as int], x);
        lemma_lex_equal(keys[before[a] as int], x);
    }
    assert forall|a: int| 0 <= a < pos implies lex_order(keys[#[trigger] before[a] as int], x)
        != Order::Greater by {
        if a < pos - 1 {
            lemma_lex_le_trans(keys[before[a] as int], keys[before[pos - 1] as int], x);
        }
    }
    assert forall|a: int, b: int| 0 <= a < b < idx.len() implies lex_order(
        keys[#[trigger] idx[a] as int],
        keys[#[trigger] idx[b] as int],
    ) != Order::Greater && (keys[idx[a] as int] == keys[idx[b] as int] ==> idx[a] < idx[b]) && idx[a]
        != idx[b] by {
        if a < pos && b < pos {
            assert(idx[a] == before[a] && idx[b] == before[b]);
        } else if a < pos && b == pos {
            assert(idx[a] == before[a]);
        } else if a < pos {
            assert(idx[a] == before[a] && idx[b] == before[b - 1]);
        } else if a == pos {
            assert(idx[b] == before[b - 1]);
        } else {
            assert(idx[a] == before[a - 1] && idx[b] == before[b - 1]);
        }
    }
    assert forall|a: int| 0 <= a < idx.len() implies #[trigger] idx[a] < m + 1 by {
        if a < pos {
            assert(idx[a] == before[a]);
        } else if a > pos {
            assert(idx[a] == before[a - 1]);
        }
    }
}

/// The positions of `keys` in the order of a stable sort by key.
pub fn stable_order(keys: &Vec<Vec<char>>) -> (r: Vec<usize>)
    ensures
        is_stable_order(char_views(keys@), r@.map_values(|x: usize| x as int)),
{
    let ghost kv = char_views(keys@);
    let n = keys.len();
    let mut idx: Vec<usize> = Vec::new();
    let mut m: usize = 0;
    while m < n
        invariant
            m <= n == keys@.len() == kv.len(),
            kv == char_views(keys@),
            idx@.len() == m,
            sorted_prefix(kv, idx@, m as int),
        decreases n - m,
    {
        let mut pos = idx.len();
        while pos > 0 && compare_chars(&keys[idx[pos - 1]], &keys[m]) == Order::Greater
            invariant
                pos <= idx@.len(),
                m < n == keys@.len() == kv.len(),
                kv == char_views(keys@),
                sorted_prefix(kv, idx@, m as int),
                forall|a: int|
                    pos <= a < idx@.len() ==> lex_order(kv[#[trigger] idx@[a] as int], kv[m as int])
                        == Order::Greater,
            decreases pos,
        {
            proof {
                assert(idx@[pos - 1] < m);
                assert(kv[idx@[pos - 1] as int] == keys@[idx@[pos - 1] as int]@);
                assert(kv[m as int] == keys@[m as int]@);
            }
            pos = pos - 1;
        }
        proof {
            if pos > 0 {
                assert(idx@[pos - 1] < m);
                assert(kv[idx@[pos - 1] as int] == keys@[idx@[pos - 1] as int]@);
                assert(kv[m as int] == keys@[m as int]@);
            }
            lemma_insert(kv, idx@, pos as int, m as int);
        }
        idx.insert(pos, m);
        m = m + 1;
    }
    proof {
        let p = idx@.map_values(|x: usize| x as int);
        assert forall|i: int, j: int| 0 <= i < j < p.len() implies #[trigger] p[i] != #[trigger] p[j] by {
            assert(idx@[i] != idx@[j]);
        }
        assert forall|i: int, j: int| 0 <= i < j < p.len() implies lex_order(
            kv[#[trigger] p[i]],
            kv[#[trigger] p[j]],
        ) != Order::Greater && (kv[p[i]] == kv[p[j]] ==> p[i] < p[j]) by {
            assert(p[i] == idx@[i] as int && p[j] == idx@[j] as int);
        }
        assert forall|i: int| 0 <= i < p.len() implies 0 <= #[trigger] p[i] < kv.len() by {
            assert(p[i] == idx@[i] as int);
        }
    }
    idx
}

} // verus!
