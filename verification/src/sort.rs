//! Ordering of the game list: by name, date added, release date or
//! "most played" (frecency).

use vstd::prelude::*;

use crate::model::{game_views, Game, GameV};
use crate::order::{compare_chars, int_order, lemma_lex_flip, lex_order, Order};
use crate::sorting::lemma_lex_le_trans;
use crate::text::{chars_of, lowercase, to_lowercase_chars};
use crate::time::{rfc3339_to_epoch, rfc3339_value};

verus! {

/// What to sort by.
#[derive(Clone, Copy, Debug, PartialEq, Eq, Structural)]
pub enum SortKey {
    Name,
    DateAdded,
    ReleaseDate,
    MostPlayed,
}

/// Sort direction.
#[derive(Clone, Copy, Debug, PartialEq, Eq, Structural)]
pub enum SortDir {
    Asc,
    Desc,
}

/// Whether the direction is ascending.
pub open spec fn is_asc(dir: SortDir) -> bool {
    dir == SortDir::Asc
}

/// Seconds per day.
pub const DAY: i64 = 86_400;

/// Frecency decay in tenths: 10 if played within 7 days, 6 within 30, 3
/// within 90, 1 if older; 0 when never played or the timestamp is garbage.
pub open spec fn decay_tenths(play_count: u64, last_played: Option<Seq<char>>, now: int) -> int {
    if play_count == 0 {
        0
    } else {
        match last_played {
            None => 0,
            Some(ts) => match rfc3339_value(ts) {
                None => 0,
                Some(t) => {
                    let age = now - t;
                    if age <= 7 * 86400 {
                        10
                    } else if age <= 30 * 86400 {
                        6
                    } else if age <= 90 * 86400 {
                        3
                    } else {
                        1
                    }
                },
            },
        }
    }
}

/// Frecency in tenths: `count * decay * 10`.
pub open spec fn frecency_tenths(play_count: u64, last_played: Option<Seq<char>>, now: int) -> int {
    play_count * decay_tenths(play_count, last_played, now)
}

/// The frecency decay step of a game, in tenths (10, 6, 3, 1, or 0 when
/// never played or the timestamp is garbage). Frecency is
/// `play_count * decay`; the decay steps are mirrored by the QML frontend.
pub fn frecency_decay_tenths(play_count: u64, last_played: Option<&str>, now: i64) -> (r: u64)
    ensures
        r <= 10,
        r == decay_tenths(
            play_count,
            match last_played {
                Some(s) => Some(s@),
                None => None,
            },
            now as int,
        ),
{
    if play_count == 0 {
        return 0;
    }
    let ts = match last_played {
        Some(s) => rfc3339_to_epoch(s),
        None => None,
    };
    match ts {
        None => 0,
        Some(t) => {
            let age: i128 = (now as i128) - (t as i128);
            if age <= 7 * 86400 {
                10
            } else if age <= 30 * 86400 {
                6
            } else if age <= 90 * 86400 {
                3
            } else {
                1
            }
        },
    }
}

/// What the ordering of a game depends on.
pub ghost struct RankV {
    pub lname: Seq<char>,
    pub added: Seq<char>,
    pub release: Option<Seq<char>>,
    pub score: int,
}

/// The ordering data of a game at time `now`.
pub open spec fn rank_of(g: GameV, now: int) -> RankV {
    RankV {
        lname: lowercase(g.name),
        added: g.added_at,
        release: match g.sgdb {
            Some(s) => s.release_date,
            None => None,
        },
        score: frecency_tenths(g.play_count, g.last_played, now),
    }
}

/// Release dates ascending (or descending), games without one last in
/// both directions.
pub open spec fn release_order(a: RankV, b: RankV, asc: bool) -> Order {
    match (a.release, b.release) {
        (Some(x), Some(y)) => if asc {
            lex_order(x, y)
        } else {
            lex_order(x, y).flip()
        },
        (Some(_), None) => Order::Less,
        (None, Some(_)) => Order::Greater,
        (None, None) => Order::Equal,
    }
}

/// Highest frecency first when ascending (lowest first when descending),
/// never-played games last in both directions.
pub open spec fn played_order(a: RankV, b: RankV, asc: bool) -> Order {
    match (a.score == 0, b.score == 0) {
        (true, true) => Order::Equal,
        (true, false) => Order::Greater,
        (false, true) => Order::Less,
        (false, false) => if asc {
            int_order(b.score, a.score)
        } else {
            int_order(b.score, a.score).flip()
        },
    }
}

/// The order by the chosen key alone.
pub open spec fn primary_order(key: SortKey, asc: bool, a: RankV, b: RankV) -> Order {
    match key {
        SortKey::Name => if asc {
            lex_order(a.lname, b.lname)
        } else {
            lex_order(a.lname, b.lname).flip()
        },
        SortKey::DateAdded => if asc {
            lex_order(a.added, b.added)
        } else {
            lex_order(a.added, b.added).flip()
        },
        SortKey::ReleaseDate => release_order(a, b, asc),
        SortKey::MostPlayed => played_order(a, b, asc),
    }
}

/// The order used by `sort_games`: by the chosen key, ties broken by the
/// lowercase name (ascending).
pub open spec fn game_order(key: SortKey, asc: bool, a: RankV, b: RankV) -> Order {
    let o = primary_order(key, asc, a, b);
    if o == Order::Equal {
        lex_order(a.lname, b.lname)
    } else {
        o
    }
}

proof fn lemma_primary_flip(key: SortKey, asc: bool, a: RankV, b: RankV)
    ensures
        primary_order(key, asc, b, a) == primary_order(key, asc, a, b).flip(),
{
    lemma_lex_flip(a.lname, b.lname);
    lemma_lex_flip(a.added, b.added);
    match (a.release, b.release) {
        (Some(x), Some(y)) => lemma_lex_flip(x, y),
        _ => {},
    }
}

proof fn lemma_primary_trans(key: SortKey, asc: bool, a: RankV, b: RankV, c: RankV)
    ensures
        primary_order(key, asc, a, b) != Order::Greater && primary_order(key, asc, b, c)
            != Order::Greater ==> primary_order(key, asc, a, c) != Order::Greater,
        primary_order(key, asc, a, b) == Order::Equal && primary_order(key, asc, b, c)
            == Order::Equal ==> primary_order(key, asc, a, c) == Order::Equal,
{
    lemma_lex_le_trans(a.lname, b.lname, c.lname);
    lemma_lex_le_trans(a.added, b.added, c.added);
    match (a.release, b.release, c.release) {
        (Some(x), Some(y), Some(z)) => lemma_lex_le_trans(x, y, z),
        _ => {},
    }
}

/// The sort order is antisymmetric: comparing the other way round gives
/// the reverse.
pub proof fn lemma_game_order_flip(key: SortKey, asc: bool, a: RankV, b: RankV)
    ensures
        game_order(key, asc, b, a) == game_order(key, asc, a, b).flip(),
{
    lemma_primary_flip(key, asc, a, b);
    lemma_lex_flip(a.lname, b.lname);
}

/// The sort order is transitive; with antisymmetry it is a total
/// preorder, which the insertion in `sort_games` relies on.
pub proof fn lemma_game_order_trans(key: SortKey, asc: bool, a: RankV, b: RankV, c: RankV)
    ensures
        game_order(key, asc, a, b) != Order::Greater && game_order(key, asc, b, c) != Order::Greater
            ==> game_order(key, asc, a, c) != Order::Greater,
{
    lemma_primary_trans(key, asc, a, b, c);
    lemma_primary_trans(key, asc, b, c, a);
    lemma_primary_trans(key, asc, c, a, b);
    lemma_primary_flip(key, asc, a, b);
    lemma_primary_flip(key, asc, b, c);
    lemma_primary_flip(key, asc, a, c);
    lemma_lex_le_trans(a.lname, b.lname, c.lname);
}

/// Games without a release date sort after every game with one, and
/// never-played games after every played one, in both directions.
pub proof fn lemma_missing_sorts_last(asc: bool, a: RankV, b: RankV)
    ensures
        a.release is None && b.release is Some ==> game_order(SortKey::ReleaseDate, asc, a, b) == Order::Greater,
        a.score == 0 && b.score != 0 ==> game_order(SortKey::MostPlayed, asc, a, b) == Order::Greater,
{
}

/// The "most played" score, in tenths, is the play count times the decay
/// for how long ago the game was last played: 10 within 7 days
/// (604800 s), 6 within 30 days, 3 within 90 days, 1 beyond; 0 for a game
/// never played, without a last-played time or with an unreadable one.
pub proof fn lemma_frecency_score(g: GameV, now: int)
    ensures
        rank_of(g, now).score == if g.play_count == 0 {
            0
        } else {
            match g.last_played {
                None => 0,
                Some(t) => match rfc3339_value(t) {
                    None => 0,
                    Some(p) => g.play_count * if now - p <= 604800 {
                        10int
                    } else if now - p <= 2592000 {
                        6
                    } else if now - p <= 7776000 {
                        3
                    } else {
                        1
                    },
                },
            }
        },
{
}

/// Recency counts: of two played games with the same play count, the one
/// played within the last 7 days scores higher than one last played more
/// than 7 days ago; and a game played ten times more often but more than
/// 90 days ago scores no higher than one played within the last week.
pub proof fn lemma_recent_play_ranks_higher(a: GameV, b: GameV, now: int, ta: int, tb: int)
    requires
        a.play_count > 0,
        b.play_count > 0,
        a.last_played matches Some(x) && rfc3339_value(x) == Some(ta),
        b.last_played matches Some(y) && rfc3339_value(y) == Some(tb),
        now - ta <= 604800,
        now - tb > 604800,
    ensures
        a.play_count == b.play_count ==> rank_of(a, now).score > rank_of(b, now).score,
        now - tb > 7776000 && b.play_count <= 10 * a.play_count ==> rank_of(b, now).score <= rank_of(a, now).score,
{
    lemma_frecency_score(a, now);
    lemma_frecency_score(b, now);
}

/// Most played, ascending, puts the higher score first; descending puts
/// the lower (played) score first.
pub proof fn lemma_most_played_order(a: RankV, b: RankV)
    ensures
        a.score > b.score && b.score > 0 ==> game_order(SortKey::MostPlayed, true, a, b) == Order::Less
            && game_order(SortKey::MostPlayed, false, a, b) == Order::Greater,
{
}

/// `sorted` is `original` stably sorted by the order: a permutation `p`
/// of the positions with `sorted[i] == original[p[i]]`, in order, equal
/// games keeping their original relative order.
pub open spec fn is_stable_sort(
    original: Seq<GameV>,
    sorted: Seq<GameV>,
    p: Seq<int>,
    key: SortKey,
    asc: bool,
    now: int,
) -> bool {
    &&& sorted.len() == original.len()
    &&& p.len() == original.len()
    &&& forall|i: int| 0 <= i < p.len() ==> 0 <= #[trigger] p[i] < original.len()
    &&& forall|i: int, j: int| 0 <= i < j < p.len() ==> #[trigger] p[i] != #[trigger] p[j]
    &&& forall|i: int| 0 <= i < sorted.len() ==> #[trigger] sorted[i] == original[p[i]]
    &&& forall|i: int, j: int|
        0 <= i < j < sorted.len() ==> game_order(
            key,
            asc,
            rank_of(#[trigger] sorted[i], now),
            rank_of(#[trigger] sorted[j], now),
        ) != Order::Greater
    &&& forall|i: int, j: int|
        0 <= i < j < sorted.len() && game_order(
            key,
            asc,
            rank_of(#[trigger] sorted[i], now),
            rank_of(#[trigger] sorted[j], now),
        ) == Order::Equal ==> p[i] < p[j]
}

/// `idx` lists distinct positions below `m`, ordered by the ranks at
/// those positions, equal ranks in increasing position.
pub open spec fn sorted_indices(rv: Seq<RankV>, idx: Seq<usize>, m: int, key: SortKey, asc: bool) -> bool {
    &&& forall|a: int| 0 <= a < idx.len() ==> #[trigger] idx[a] < m
    &&& forall|a: int, b: int| 0 <= a < b < idx.len() ==> #[trigger] idx[a] != #[trigger] idx[b]
    &&& forall|a: int, b: int|
        0 <= a < b < idx.len() ==> game_order(key, asc, rv[#[trigger] idx[a] as int], rv[#[trigger] idx[b] as int])
            != Order::Greater
    &&& forall|a: int, b: int|
        0 <= a < b < idx.len() && game_order(key, asc, rv[#[trigger] idx[a] as int], rv[#[trigger] idx[b] as int])
            == Order::Equal ==> idx[a] < idx[b]
}

proof fn lemma_insert_sorted(rv: Seq<RankV>, before: Seq<usize>, pos: int, m: int, key: SortKey, asc: bool)
    requires
        0 <= m < rv.len(),
        m <= usize::MAX,
        0 <= pos <= before.len(),
        sorted_indices(rv, before, m, key, asc),
        forall|a: int| pos <= a < before.len() ==> game_order(key, asc, rv[#[trigger] before[a] as int], rv[m])
            == Order::Greater,
        pos > 0 ==> game_order(key, asc, rv[before[pos - 1] as int], rv[m]) != Order::Greater,
    ensures
        sorted_indices(rv, before.insert(pos, m as usize), m + 1, key, asc),
{
    let x = rv[m];
    let idx = before.insert(pos, m as usize);
    assert forall|a: int| pos <= a < before.len() implies game_order(key, asc, x, rv[#[trigger] before[a] as int])
        == Order::Less by {
        lemma_game_order_flip(key, asc, rv[before[a] as int], x);
    }
    assert forall|a: int| 0 <= a < pos implies game_order(key, asc, rv[#[trigger] before[a] as int], x)
        != Order::Greater by {
        if a < pos - 1 {
            lemma_game_order_trans(key, asc, rv[before[a] as int], rv[before[pos - 1] as int], x);
        }
    }
    assert forall|a: int, b: int| 0 <= a < b < idx.len() implies game_order(
        key,
        asc,
        rv[#[trigger] idx[a] as int],
        rv[#[trigger] idx[b] as int],
    ) != Order::Greater && (game_order(key, asc, rv[idx[a] as int], rv[idx[b] as int]) == Order::Equal
        ==> idx[a] < idx[b]) && idx[a] != idx[b] by {
        if a < pos && b < pos {
            assert(idx[a] == before[a] && idx[b] == before[b]);
        } else if a < pos && b == pos {
            assert(idx[a] == before[a]);
        } else if a < pos {
            assert(idx[a] == before[a] && idx[b] == before[b - 1]);
        } else if a == pos {
            assert(idx[b] == before[b - 1]);
        } else {
            assert(idx[a] == before[a - 1] && idx[b] == before[b - 1]);
        }
    }
    assert forall|a: int| 0 <= a < idx.len() implies #[trigger] idx[a] < m + 1 by {
        if a < pos {
            assert(idx[a] == before[a]);
        } else if a > pos {
            assert(idx[a] == before[a - 1]);
        }
    }
}

/// Exec form of `RankV`.
struct Rank {
    lname: Vec<char>,
    added: Vec<char>,
    release: Option<Vec<char>>,
    score: u128,
}

impl View for Rank {
    type V = RankV;

    closed spec fn view(&self) -> RankV {
        RankV {
            lname: self.lname@,
            added: self.added@,
            release: match self.release {
                Some(r) => Some(r@),
                None => None,
            },
            score: self.score as int,
        }
    }
}

fn rank_exec(g: &Game, now: i64) -> (r: Rank)
    ensures
        r@ == rank_of(g@, now as int),
{
    let name = chars_of(g.name.as_str());
    let lname = to_lowercase_chars(&name);
    let added = chars_of(g.added_at.as_str());
    let release = match &g.sgdb {
        Some(s) => match &s.release_date {
            Some(d) => Some(chars_of(d.as_str())),
            None => None,
        },
        None => None,
    };
    let last = match &g.last_played {
        Some(s) => Some(s.as_str()),
        None => None,
    };
    let decay = frecency_decay_tenths(g.play_count, last, now);
    assert((g.play_count as u128) * (decay as u128) <= 0xffff_ffff_ffff_ffffu128 * 10) by (nonlinear_arith)
        requires
            decay <= 10,
    ;
    let score: u128 = (g.play_count as u128) * (decay as u128);
    Rank { lname, added, release, score }
}

fn order_exec(key: SortKey, asc: bool, a: &Rank, b: &Rank) -> (r: Order)
    ensures
        r == game_order(key, asc, a@, b@),
{
    let primary = match key {
        SortKey::Name => {
            let o = compare_chars(&a.lname, &b.lname);
            if asc {
                o
            } else {
                flip_exec(o)
            }
        },
        SortKey::DateAdded => {
            let o = compare_chars(&a.added, &b.added);
            if asc {
                o
            } else {
                flip_exec(o)
            }
        },
        SortKey::ReleaseDate => match (&a.release, &b.release) {
            (Some(x), Some(y)) => {
                let o = compare_chars(x, y);
                if asc {
                    o
                } else {
                    flip_exec(o)
                }
            },
            (Some(_), None) => Order::Less,
            (None, Some(_)) => Order::Greater,
            (None, None) => Order::Equal,
        },
        SortKey::MostPlayed => match (a.score == 0, b.score == 0) {
            (true, true) => Order::Equal,
            (true, false) => Order::Greater,
            (false, true) => Order::Less,
            (false, false) => {
                let o = if b.score < a.score {
                    Order::Less
                } else if b.score == a.score {
                    Order::Equal
                } else {
                    Order::Greater
                };
                if asc {
                    o
                } else {
                    flip_exec(o)
                }
            },
        },
    };
    match primary {
        Order::Equal => compare_chars(&a.lname, &b.lname),
        _ => primary,
    }
}

fn is_greater(o: Order) -> (r: bool)
    ensures
        r == (o == Order::Greater),
{
    match o {
        Order::Greater => true,
        _ => false,
    }
}

fn flip_exec(o: Order) -> (r: Order)
    ensures
        r == o.flip(),
{
    match o {
        Order::Less => Order::Greater,
        Order::Equal => Order::Equal,
        Order::Greater => Order::Less,
    }
}

/// Sorts the games by `key` in direction `dir` (stable). Name and date
/// added reverse for descending; release date keeps games without one last
/// in both directions; most played puts the highest frecency first when
/// ascending and never-played games last in both directions. Ties fall
/// back to the lowercase name.
pub fn sort_games(games: &mut Vec<Game>, key: SortKey, dir: SortDir, now: i64)
    ensures
        exists|p: Seq<int>|
            #[trigger] is_stable_sort(
                game_views(old(games)@),
                game_views(final(games)@),
                p,
                key,
                is_asc(dir),
                now as int,
            ),
{
    let asc = match dir {
        SortDir::Asc => true,
        SortDir::Desc => false,
    };
    let n = games.len();
    let ghost orig = game_views(games@);
    let mut ranks: Vec<Rank> = Vec::new();
    let mut i: usize = 0;
    while i < n
        invariant
            i <= n == games.len(),
            orig == game_views(games@),
            ranks@.len() == i,
            forall|k: int| 0 <= k < i ==> (#[trigger] ranks@[k])@ == rank_of(orig[k], now as int),
        decreases n - i,
    {
        ranks.push(rank_exec(&games[i], now));
        i = i + 1;
    }
    let ghost rv = ranks@.map_values(|r: Rank| r@);
    let mut idx: Vec<usize> = Vec::new();
    let mut m: usize = 0;
    while m < n
        invariant
            m <= n == games.len() == ranks@.len() == rv.len(),
            orig == game_views(games@),
            rv == ranks@.map_values(|r: Rank| r@),
            forall|k: int| 0 <= k < n ==> #[trigger] rv[k] == rank_of(orig[k], now as int),
            idx@.len() == m,
            sorted_indices(rv, idx@, m as int, key, asc),
        decreases n - m,
    {
        let mut pos = idx.len();
        while pos > 0 && is_greater(order_exec(key, asc, &ranks[idx[pos - 1]], &ranks[m]))
            invariant
                pos <= idx@.len(),
                m < n == ranks@.len() == rv.len(),
                rv == ranks@.map_values(|r: Rank| r@),
                sorted_indices(rv, idx@, m as int, key, asc),
                forall|a: int|
                    pos <= a < idx@.len() ==> game_order(
                        key,
                        asc,
                        rv[#[trigger] idx@[a] as int],
                        rv[m as int],
                    ) == Order::Greater,
            decreases pos,
        {
            proof {
                assert(idx@[pos - 1] < m);
                assert(rv[idx@[pos - 1] as int] == ranks@[idx@[pos - 1] as int]@);
                assert(rv[m as int] == ranks@[m as int]@);
            }
            pos = pos - 1;
        }
        proof {
            if pos > 0 {
                assert(idx@[pos - 1] < m);
                assert(rv[idx@[pos - 1] as int] == ranks@[idx@[pos - 1] as int]@);
                assert(rv[m as int] == ranks@[m as int]@);
            }
            lemma_insert_sorted(rv, idx@, pos as int, m as int, key, asc);
        }
        idx.insert(pos, m);
        m = m + 1;
    }
    proof {
        assert forall|a: int| 0 <= a < n implies #[trigger] idx@[a] < n by {}
    }
    let mut out: Vec<Game> = Vec::new();
    let mut k: usize = 0;
    while k < n
        invariant
            k <= n == games.len() == idx@.len(),
            orig == game_views(games@),
            forall|a: int| 0 <= a < n ==> #[trigger] idx@[a] < n,
            out@.len() == k,
            forall|a: int| 0 <= a < k ==> (#[trigger] out@[a])@ == orig[idx@[a] as int],
        decreases n - k,
    {
        out.push(games[idx[k]].duplicate());
        k = k + 1;
    }
    let ghost p = idx@.map_values(|x: usize| x as int);
    proof {
        let sorted = game_views(out@);
        assert forall|a: int| 0 <= a < sorted.len() implies #[trigger] sorted[a] == orig[p[a]] by {}
        assert forall|a: int| 0 <= a < n implies rank_of(#[trigger] sorted[a], now as int) == rv[idx@[a] as int] by {
            assert(sorted[a] == orig[idx@[a] as int]);
        }
        assert forall|a: int, b: int| 0 <= a < b < sorted.len() implies game_order(
            key,
            asc,
            rank_of(#[trigger] sorted[a], now as int),
            rank_of(#[trigger] sorted[b], now as int),
        ) != Order::Greater by {
            assert(rank_of(sorted[a], now as int) == rv[idx@[a] as int]);
            assert(rank_of(sorted[b], now as int) == rv[idx@[b] as int]);
        }
        assert forall|a: int, b: int|
            0 <= a < b < sorted.len() && game_order(
                key,
                asc,
                rank_of(#[trigger] sorted[a], now as int),
                rank_of(#[trigger] sorted[b], now as int),
            ) == Order::Equal implies p[a] < p[b] by {
            assert(rank_of(sorted[a], now as int) == rv[idx@[a] as int]);
            assert(rank_of(sorted[b], now as int) == rv[idx@[b] as int]);
        }
        assert forall|a: int, b: int| 0 <= a < b < p.len() implies #[trigger] p[a] != #[trigger] p[b] by {
            assert(idx@[a] != idx@[b]);
        }
        assert(is_stable_sort(orig, sorted, p, key, asc, now as int));
    }
    *games = out;
    proof {
        assert(asc == is_asc(dir));
        assert(is_stable_sort(orig, game_views(games@), p, key, is_asc(dir), now as int));
    }
}

} // verus!
