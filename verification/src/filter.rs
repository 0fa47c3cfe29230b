//! Category and name filtering of the game list.

use vstd::prelude::*;

use crate::model::{Category, Game};
use crate::text::{chars_of, contains, contains_exec, lowercase, occurs_at, to_lowercase_chars, trim, trim_chars};

verus! {

/// Which games to show: any of the listed categories (all when the list
/// is empty) and a name containing the query, ignoring case (any name when
/// the query is blank).
#[derive(Clone, Debug, PartialEq, Eq, Default)]
pub struct GameFilter {
    pub categories: Vec<Category>,
    pub query: String,
}

/// Whether the filter lets the game through.
pub open spec fn filter_accepts(f: GameFilter, g: Game) -> bool {
    let q = trim(f.query@);
    &&& (f.categories@.len() == 0 || f.categories@.contains(g.category))
    &&& (q.len() == 0 || contains(lowercase(g.name@), lowercase(q)))
}

/// The games the filter lets through, in order.
pub open spec fn filtered(games: Seq<Game>, f: GameFilter) -> Seq<Game>
    decreases games.len(),
{
    if games.len() == 0 {
        Seq::<Game>::empty()
    } else {
        let r = filtered(games.drop_last(), f);
        if filter_accepts(f, games.last()) {
            r.push(games.last())
        } else {
            r
        }
    }
}

/// A game passes the filter exactly when its category is allowed (or no
/// category is listed) and the trimmed query, lowercased, occurs at some
/// position of the lowercased name (or the trimmed query is empty). The
/// query may match anywhere in the name, not only at its start.
pub proof fn lemma_filter_substring(f: GameFilter, g: Game)
    ensures
        filter_accepts(f, g) <==> (
            (f.categories@.len() == 0 || f.categories@.contains(g.category))
            && (trim(f.query@).len() == 0 || exists|i: int|
                0 <= i && i + lowercase(trim(f.query@)).len() <= lowercase(g.name@).len()
                && #[trigger] lowercase(g.name@).subrange(i, i + lowercase(trim(f.query@)).len())
                    == lowercase(trim(f.query@)))),
{
    let ln = lowercase(g.name@);
    let lq = lowercase(trim(f.query@));
    if trim(f.query@).len() != 0 {
        if contains(ln, lq) {
            let i = choose|i: int| occurs_at(ln, lq, i);
            assert(0 <= i && i + lq.len() <= ln.len() && ln.subrange(i, i + lq.len()) == lq);
        }
        if exists|i: int| 0 <= i && i + lq.len() <= ln.len() && #[trigger] ln.subrange(i, i + lq.len()) == lq {
            let i = choose|i: int| 0 <= i && i + lq.len() <= ln.len() && #[trigger] ln.subrange(i, i + lq.len()) == lq;
            assert(occurs_at(ln, lq, i));
        }
    }
}

/// The filtered list holds, in order, exactly the games of the input that
/// pass the filter: every passing game is kept and every kept game passes.
pub proof fn lemma_filtered_members(games: Seq<Game>, f: GameFilter)
    ensures
        forall|g: Game| #[trigger] filtered(games, f).contains(g) <==> (games.contains(g) && filter_accepts(f, g)),
        filtered(games, f).len() <= games.len(),
    decreases games.len(),
{
    if games.len() > 0 {
        let init = games.drop_last();
        lemma_filtered_members(init, f);
        let r = filtered(init, f);
        assert forall|g: Game| #[trigger] filtered(games, f).contains(g) <==> (games.contains(g) && filter_accepts(f, g)) by {
            assert(games =~= init.push(games.last()));
            assert(r.contains(g) <==> (init.contains(g) && filter_accepts(f, g)));
            assert(filtered(games, f) == if filter_accepts(f, games.last()) { r.push(games.last()) } else { r });
            if filtered(games, f).contains(g) {
                let k = choose|k: int| 0 <= k < filtered(games, f).len() && filtered(games, f)[k] == g;
                if k < r.len() {
                    assert(r[k] == g);
                    assert(r.contains(g));
                    let j = choose|j: int| 0 <= j < init.len() && init[j] == g;
                    assert(games[j] == g);
                } else {
                    assert(games[games.len() - 1] == g);
                }
            }
            if games.contains(g) && filter_accepts(f, g) {
                let j = choose|j: int| 0 <= j < games.len() && games[j] == g;
                if j < games.len() - 1 {
                    assert(init[j] == g);
                    assert(init.contains(g));
                    let k = choose|k: int| 0 <= k < r.len() && r[k] == g;
                    assert(filtered(games, f)[k] == g);
                    assert(filtered(games, f).contains(g));
                } else {
                    let fl = filtered(games, f);
                    assert(fl[fl.len() - 1] == g);
                }
            }
        }
    }
}

impl GameFilter {
    /// Whether the filter lets `game` through.
    pub fn matches(&self, game: &Game) -> (r: bool)
        ensures
            r == filter_accepts(*self, *game),
    {
        let mut category_ok = self.categories.len() == 0;
        let mut i: usize = 0;
        while i < self.categories.len() && !category_ok
            invariant
                i <= self.categories.len(),
                category_ok == (self.categories@.len() == 0 || exists|k: int|
                    0 <= k < i && self.categories@[k] == game.category),
            decreases self.categories.len() - i,
        {
            if self.categories[i] == game.category {
                category_ok = true;
            }
            i = i + 1;
        }
        let q_all = chars_of(self.query.as_str());
        let q = trim_chars(&q_all);
        let query_ok = if q.len() == 0 {
            true
        } else {
            let name = chars_of(game.name.as_str());
            let lname = to_lowercase_chars(&name);
            let lq = to_lowercase_chars(&q);
            contains_exec(&lname, &lq)
        };
        category_ok && query_ok
    }
}

/// The games `filter` lets through, in their original order.
pub fn filter_games<'a>(games: &'a [Game], filter: &GameFilter) -> (r: Vec<&'a Game>)
    ensures
        r@.len() == filtered(games@, *filter).len(),
        forall|i: int| 0 <= i < r@.len() ==> *r@[i] == filtered(games@, *filter)[i],
{
    let mut out: Vec<&'a Game> = Vec::new();
    let mut i: usize = 0;
    while i < games.len()
        invariant
            i <= games.len(),
            out@.len() == filtered(games@.take(i as int), *filter).len(),
            forall|k: int| 0 <= k < out@.len() ==> *out@[k] == filtered(games@.take(i as int), *filter)[k],
        decreases games.len() - i,
    {
        let g = &games[i];
        proof {
            assert(games@.take(i + 1).drop_last() =~= games@.take(i as int));
            assert(games@.take(i + 1).last() == *g);
        }
        if filter.matches(g) {
            out.push(g);
        }
        i = i + 1;
    }
    assert(games@.take(games.len() as int) =~= games@);
    out
}

} // verus!
