//! The state changes behind `ogm add`, `remove`, `launch` and `refresh`.

use vstd::prelude::*;

use crate::catalog::{entry_views, CatalogEntry};
use crate::cli::{debug_text, parse_category, unknown_category_text};
use crate::desktop::string_views;
use crate::ids::{is_unique_id, slug, slugify, unique_id};
use crate::model::{category_named, game_views, opt_str, Category, CustomGame, CustomGameV, Game, GameV, SgdbInfo, SgdbInfoV};
use crate::net::{net_error_text, NetError, ReleaseOutcome};
use crate::reconcile::custom_views;
use crate::text::{chars_eq, chars_of, lowercase, push_all, string_from_chars};
use crate::time::{rfc3339_to_epoch, rfc3339_value};
use crate::user_games::{hide_list, UserGames};
use crate::version::{has_update, update_available};

verus! {

/// The ids already in use: those of the state's games, of the catalog
/// and of the custom games, in that order.
pub open spec fn taken_ids(games: Seq<GameV>, cat: Seq<crate::catalog::CatalogEntryV>, custom: Seq<CustomGameV>) -> Seq<Seq<char>> {
    games.map_values(|g: GameV| g.id) + cat.map_values(|e: crate::catalog::CatalogEntryV| e.id) + custom.map_values(
        |c: CustomGameV| c.id,
    )
}

fn collect_taken(games: &[Game], catalog: &[CatalogEntry], custom: &[CustomGame]) -> (r: Vec<String>)
    ensures
        string_views(r@) == taken_ids(game_views(games@), entry_views(catalog@), custom_views(custom@)),
{
    let mut out: Vec<String> = Vec::new();
    let mut i: usize = 0;
    while i < games.len()
        invariant
            i <= games@.len(),
            string_views(out@) == game_views(games@).map_values(|g: GameV| g.id).subrange(0, i as int),
        decreases games.len() - i,
    {
        let ghost before = out@;
        let s = games[i].id.clone();
        out.push(s);
        assert(string_views(out@) =~= string_views(before).push(s@));
        assert(game_views(games@)[i as int].id == s@);
        assert(string_views(out@) =~= game_views(games@).map_values(|g: GameV| g.id).subrange(0, i as int + 1));
        i = i + 1;
    }
    let ghost a = game_views(games@).map_values(|g: GameV| g.id);
    assert(a.subrange(0, a.len() as int) =~= a);
    let mut j: usize = 0;
    while j < catalog.len()
        invariant
            j <= catalog@.len(),
            string_views(out@) == a + entry_views(catalog@).map_values(|e: crate::catalog::CatalogEntryV| e.id).subrange(
                0,
                j as int,
            ),
        decreases catalog.len() - j,
    {
        let ghost before = out@;
        let s = catalog[j].id.clone();
        out.push(s);
        assert(string_views(out@) =~= string_views(before).push(s@));
        assert(entry_views(catalog@)[j as int].id == s@);
        assert(string_views(out@) =~= a + entry_views(catalog@).map_values(
            |e: crate::catalog::CatalogEntryV| e.id,
        ).subrange(0, j as int + 1));
        j = j + 1;
    }
    let ghost b = entry_views(catalog@).map_values(|e: crate::catalog::CatalogEntryV| e.id);
    assert(b.subrange(0, b.len() as int) =~= b);
    let mut k: usize = 0;
    while k < custom.len()
        invariant
            k <= custom@.len(),
            string_views(out@) == a + b + custom_views(custom@).map_values(|c: CustomGameV| c.id).subrange(
                0,
                k as int,
            ),
        decreases custom.len() - k,
    {
        let ghost before = out@;
        let s = custom[k].id.clone();
        out.push(s);
        assert(string_views(out@) =~= string_views(before).push(s@));
        assert(custom_views(custom@)[k as int].id == s@);
        assert(string_views(out@) =~= a + b + custom_views(custom@).map_values(|c: CustomGameV| c.id).subrange(
            0,
            k as int + 1,
        ));
        k = k + 1;
    }
    let ghost c = custom_views(custom@).map_values(|c: CustomGameV| c.id);
    assert(c.subrange(0, c.len() as int) =~= c);
    out
}

/// The message when a name gives no usable id.
pub open spec fn no_id_text(name: Seq<char>) -> Seq<char> {
    "could not derive an id from name "@ + debug_text(name)
}

/// The custom game `ogm add` records.
pub open spec fn added_game(
    id: Seq<char>,
    name: Seq<char>,
    exec_line: Seq<char>,
    category: Category,
    github: Option<Seq<char>>,
    sgdb_query: Option<Seq<char>>,
    icon: Option<Seq<char>>,
) -> CustomGameV {
    CustomGameV { id, name, exec_line, category, github, sgdb_query, icon }
}

fn opt_str_ref(o: Option<&str>) -> (r: Option<String>)
    ensures
        opt_str(r) == match o {
            Some(s) => Some(s@),
            None => None,
        },
{
    match o {
        Some(s) => Some(s.to_owned()),
        None => None,
    }
}

/// Adds a custom game: its id is the slug of the name made unique
/// against the ids in use (see `taken_ids` and `is_unique_id`); an empty
/// id or an unknown category is refused and nothing changes. Returns the
/// new id.
pub fn add_custom_game(
    user: &mut UserGames,
    state_games: &[Game],
    catalog: &[CatalogEntry],
    name: &str,
    exec_line: &str,
    category: Option<&str>,
    github: Option<&str>,
    sgdb_query: Option<&str>,
    icon: Option<&str>,
) -> (r: Result<String, String>)
    requires
        state_games@.len() + catalog@.len() + old(user).custom@.len() < 0xffff_ffff_ffff_ffff,
    ensures
        final(user).version == old(user).version,
        final(user).hidden == old(user).hidden,
        ({
            let taken = taken_ids(game_views(state_games@), entry_views(catalog@), custom_views(old(user).custom@));
            let cat_ok = match category {
                Some(c) => category_named(lowercase(c@)) is Some,
                None => true,
            };
            match r {
                Ok(id) => {
                    &&& is_unique_id(slug(name@), taken, id@)
                    &&& !taken.contains(id@)
                    &&& id@.len() > 0
                    &&& cat_ok
                    &&& custom_views(final(user).custom@) == custom_views(old(user).custom@).push(
                        added_game(
                            id@,
                            name@,
                            exec_line@,
                            match category {
                                Some(c) => category_named(lowercase(c@))->0,
                                None => Category::Custom,
                            },
                            match github {
                                Some(s) => Some(s@),
                                None => None,
                            },
                            match sgdb_query {
                                Some(s) => Some(s@),
                                None => None,
                            },
                            match icon {
                                Some(s) => Some(s@),
                                None => None,
                            },
                        ),
                    )
                },
                Err(m) => {
                    &&& final(user).custom == old(user).custom
                    &&& (forall|id: Seq<char>| is_unique_id(slug(name@), taken, id) ==> id.len() == 0)
                        ==> m@ == no_id_text(name@)
                    &&& (exists|id: Seq<char>| is_unique_id(slug(name@), taken, id) && id.len() > 0) ==> !cat_ok
                        && m@ == unknown_category_text(category->0@)
                },
            }
        }),
{
    let taken = collect_taken(state_games, catalog, &user.custom);
    assert(taken@.len() == string_views(taken@).len());
    let base = slugify(name);
    let id = unique_id(base.as_str(), &taken);
    proof {
        lemma_unique_id_function(slug(name@), string_views(taken@));
    }
    if chars_of(id.as_str()).len() == 0 {
        let mut m = chars_of("could not derive an id from name ");
        push_all(&mut m, &chars_of(crate::cli::debug_quoted(name).as_str()));
        return Err(string_from_chars(&m));
    }
    let cat = match category {
        Some(c) => match parse_category(c) {
            Ok(k) => k,
            Err(e) => return Err(e),
        },
        None => Category::Custom,
    };
    let ghost before = user.custom@;
    let g = CustomGame {
        id: id.clone(),
        name: name.to_owned(),
        exec_line: exec_line.to_owned(),
        category: cat,
        github: opt_str_ref(github),
        sgdb_query: opt_str_ref(sgdb_query),
        icon: opt_str_ref(icon),
    };
    user.custom.push(g);
    assert(custom_views(user.custom@) =~= custom_views(before).push(g@));
    Ok(id)
}

/// There is only one unique id for a base and a set of taken ids.
pub proof fn lemma_unique_id_function(base: Seq<char>, taken: Seq<Seq<char>>)
    ensures
        forall|a: Seq<char>, b: Seq<char>|
            is_unique_id(base, taken, a) && is_unique_id(base, taken, b) ==> a == b,
{
    assert forall|a: Seq<char>, b: Seq<char>|
        is_unique_id(base, taken, a) && is_unique_id(base, taken, b) implies a == b by {
        if taken.contains(base) {
            let na = choose|n: nat|
                #![trigger crate::ids::id_candidate(base, n)]
                n >= 2 && a == crate::ids::id_candidate(base, n) && !taken.contains(crate::ids::id_candidate(base, n))
                    && forall|k: nat| 2 <= k < n ==> taken.contains(#[trigger] crate::ids::id_candidate(base, k));
            let nb = choose|n: nat|
                #![trigger crate::ids::id_candidate(base, n)]
                n >= 2 && b == crate::ids::id_candidate(base, n) && !taken.contains(crate::ids::id_candidate(base, n))
                    && forall|k: nat| 2 <= k < n ==> taken.contains(#[trigger] crate::ids::id_candidate(base, k));
            if na < nb {
                assert(taken.contains(crate::ids::id_candidate(base, na)));
            } else if nb < na {
                assert(taken.contains(crate::ids::id_candidate(base, nb)));
            }
        }
    }
}

/// The custom games other than `id`, in order.
pub open spec fn without_custom(custom: Seq<CustomGameV>, id: Seq<char>) -> Seq<CustomGameV>
    decreases custom.len(),
{
    if custom.len() == 0 {
        custom
    } else if custom.last().id == id {
        without_custom(custom.drop_last(), id)
    } else {
        without_custom(custom.drop_last(), id).push(custom.last())
    }
}

/// Removes a game: a custom game is deleted; any other game is hidden.
pub fn remove_game(user: &mut UserGames, id: &str)
    ensures
        final(user).version == old(user).version,
        custom_views(final(user).custom@) == without_custom(custom_views(old(user).custom@), id@),
        without_custom(custom_views(old(user).custom@), id@).len() == old(user).custom@.len() ==> string_views(
            final(user).hidden@,
        ) == hide_list(string_views(old(user).hidden@), id@),
        without_custom(custom_views(old(user).custom@), id@).len() < old(user).custom@.len()
            ==> final(user).hidden == old(user).hidden,
{
    let key = chars_of(id);
    let ghost cv = custom_views(user.custom@);
    let mut kept: Vec<CustomGame> = Vec::new();
    let mut i: usize = 0;
    while i < user.custom.len()
        invariant
            i <= user.custom@.len(),
            key@ == id@,
            cv == custom_views(user.custom@),
            custom_views(kept@) == without_custom(cv.subrange(0, i as int), id@),
            without_custom(cv.subrange(0, i as int), id@).len() <= i,
        decreases user.custom.len() - i,
    {
        let ghost pre = cv.subrange(0, i as int + 1);
        proof {
            assert(pre.drop_last() =~= cv.subrange(0, i as int));
            assert(pre.last() == user.custom@[i as int]@);
        }
        let c = chars_of(user.custom[i].id.as_str());
        if !chars_eq(&c, &key) {
            let ghost before = kept@;
            let g = user.custom[i].duplicate();
            kept.push(g);
            assert(custom_views(kept@) =~= custom_views(before).push(g@));
        }
        i = i + 1;
    }
    assert(cv.subrange(0, cv.len() as int) =~= cv);
    let removed_none = kept.len() == user.custom.len();
    user.custom = kept;
    if removed_none {
        user.hide_id(id);
    }
}

/// What launching a game records: it was played now, once more, and its
/// web-update badge is cleared.
pub open spec fn launched(g: GameV, now: Seq<char>) -> GameV {
    GameV {
        last_played: Some(now),
        play_count: (g.play_count + 1) as u64,
        web: match g.web {
            Some(w) => Some(crate::model::WebInfoV { has_update: false, ..w }),
            None => None,
        },
        ..g
    }
}

/// Position of the first game with id `id`.
pub open spec fn game_index(games: Seq<GameV>, id: Seq<char>) -> Option<int>
    decreases games.len(),
{
    if games.len() == 0 {
        None
    } else {
        match game_index(games.drop_last(), id) {
            Some(i) => Some(i),
            None => if games.last().id == id {
                Some(games.len() - 1)
            } else {
                None
            },
        }
    }
}

proof fn lemma_game_index_prefix(games: Seq<GameV>, id: Seq<char>, n: int)
    requires
        0 <= n <= games.len(),
        game_index(games.subrange(0, n), id) is Some,
    ensures
        game_index(games, id) == game_index(games.subrange(0, n), id),
    decreases games.len() - n,
{
    if n < games.len() {
        let pre = games.subrange(0, n + 1);
        assert(pre.drop_last() =~= games.subrange(0, n));
        lemma_game_index_prefix(games, id, n + 1);
    } else {
        assert(games.subrange(0, n) =~= games);
    }
}

proof fn lemma_game_index_bounds(games: Seq<GameV>, id: Seq<char>)
    ensures
        game_index(games, id) matches Some(i) ==> 0 <= i < games.len() && games[i].id == id,
    decreases games.len(),
{
    if games.len() > 0 {
        lemma_game_index_bounds(games.drop_last(), id);
    }
}

/// Finds the game to launch by id.
pub fn find_game(games: &Vec<Game>, id: &str) -> (r: Option<usize>)
    ensures
        match r {
            Some(i) => game_index(game_views(games@), id@) == Some(i as int),
            None => game_index(game_views(games@), id@) is None,
        },
{
    let ghost gv = game_views(games@);
    let key = chars_of(id);
    let mut i: usize = 0;
    while i < games.len()
        invariant
            i <= games@.len(),
            gv == game_views(games@),
            key@ == id@,
            game_index(gv.subrange(0, i as int), id@) is None,
        decreases games.len() - i,
    {
        proof {
            let pre = gv.subrange(0, i as int + 1);
            assert(pre.drop_last() =~= gv.subrange(0, i as int));
            assert(pre.last() == games@[i as int]@);
        }
        let c = chars_of(games[i].id.as_str());
        if chars_eq(&c, &key) {
            proof {
                lemma_game_index_prefix(gv, id@, i as int + 1);
            }
            return Some(i);
        }
        i = i + 1;
    }
    assert(gv.subrange(0, gv.len() as int) =~= gv);
    None
}

/// Records the launch of the game at `index` (see `launched`) and hands
/// back the command line to run.
pub fn record_launch(games: &mut Vec<Game>, index: usize, now: &str) -> (r: String)
    requires
        index < old(games)@.len(),
        old(games)@[index as int].play_count < 0xffff_ffff_ffff_ffff,
    ensures
        r@ == old(games)@[index as int].exec_line@,
        game_views(final(games)@) == game_views(old(games)@).update(
            index as int,
            launched(old(games)@[index as int]@, now@),
        ),
{
    let mut g = games[index].duplicate();
    let exec_line = g.exec_line.clone();
    g.last_played = Some(now.to_owned());
    g.play_count = g.play_count + 1;
    match &mut g.web {
        Some(w) => {
            w.has_update = false;
        },
        None => {},
    }
    let ghost before = games@;
    let ghost gv = g@;
    games.set(index, g);
    assert(game_views(games@) =~= game_views(before).update(index as int, gv));
    exec_line
}

/// How long a check stays fresh, in seconds: the refresh interval (at
/// least an hour) taken as an `i64` the way `as i64` does it (an interval
/// above `i64::MAX` wraps to a negative one), times 3600.
pub open spec fn stale_after_secs(interval_hours: u64) -> int {
    let h: int = if interval_hours >= 1 {
        interval_hours as int
    } else {
        1
    };
    (if h <= 0x7fff_ffff_ffff_ffff {
        h
    } else {
        h - 0x1_0000_0000_0000_0000
    }) * 3600
}

/// Whether a GitHub check is due: always when forced, else when the last
/// check is missing, unreadable, or older than `stale_after_secs`.
pub open spec fn github_check_due(checked_at: Option<Seq<char>>, now: int, interval_hours: u64, force: bool) -> bool {
    force || match checked_at {
        None => true,
        Some(t) => match rfc3339_value(t) {
            None => true,
            Some(c) => now - c > stale_after_secs(interval_hours),
        },
    }
}

/// Decides whether to ask GitHub again (see `github_check_due`).
pub fn needs_github_check(checked_at: Option<&str>, now_epoch: i64, interval_hours: u64, force: bool) -> (r: bool)
    requires
        interval_hours <= 2562047788015215 || interval_hours >= 18444182025921536401,
        -0x4000_0000_0000_0000 <= now_epoch < 0x4000_0000_0000_0000,
    ensures
        r == github_check_due(
            match checked_at {
                Some(t) => Some(t@),
                None => None,
            },
            now_epoch as int,
            interval_hours,
            force,
        ),
{
    if force {
        return true;
    }
    let checked = match checked_at {
        Some(t) => rfc3339_to_epoch(t),
        None => None,
    };
    match checked {
        None => true,
        Some(c) => {
            let hours: i128 = if interval_hours >= 1 {
                interval_hours as i128
            } else {
                1
            };
            let signed: i128 = if hours <= 0x7fff_ffff_ffff_ffff {
                hours
            } else {
                hours - 0x1_0000_0000_0000_0000
            };
            let stale_after: i128 = signed * 3600;
            (now_epoch as i128) - (c as i128) > stale_after
        },
    }
}

/// The GitHub record after a release check at `now`: a release updates
/// tag, URL, publication time and the update flag (installed version
/// against the tag); not modified only records the check; not found
/// records the check and clears the flag.
pub open spec fn github_after(info: crate::model::GithubInfoV, installed: Option<Seq<char>>, outcome: ReleaseOutcome, now: Seq<char>) -> crate::model::GithubInfoV {
    match outcome {
        ReleaseOutcome::Released(rel) => crate::model::GithubInfoV {
            latest_tag: Some(rel.tag@),
            latest_url: Some(rel.url@),
            published_at: opt_str(rel.published_at),
            checked_at: Some(now),
            has_update: update_available(installed, Some(rel.tag@)),
            ..info
        },
        ReleaseOutcome::NotModified => crate::model::GithubInfoV { checked_at: Some(now), ..info },
        ReleaseOutcome::NotFound => crate::model::GithubInfoV { checked_at: Some(now), has_update: false, ..info },
    }
}

/// The warning for a failed GitHub check of game `id`.
pub open spec fn github_warning(id: Seq<char>, e: NetError) -> Seq<char> {
    "github "@ + id + ": "@ + net_error_text(e)
}

/// Applies the answer of a release check to a game that tracks a GitHub
/// repository (see `github_after`); a failure leaves the game as it was
/// and gives the warning to report.
pub fn apply_release_check(game: &mut Game, outcome: Result<ReleaseOutcome, NetError>, now: &str) -> (r: Option<String>)
    requires
        old(game).github is Some,
    ensures
        match outcome {
            Ok(o) => r is None && final(game)@ == GameV {
                github: Some(github_after(old(game)@.github->0, old(game)@.installed_version, o, now@)),
                ..old(game)@
            },
            Err(e) => *final(game) == *old(game) && r is Some && r->0@ == github_warning(old(game).id@, e),
        },
{
    match outcome {
        Err(e) => {
            let mut m = chars_of("github ");
            push_all(&mut m, &chars_of(game.id.as_str()));
            push_all(&mut m, &chars_of(": "));
            push_all(&mut m, &chars_of(e.message().as_str()));
            Some(string_from_chars(&m))
        },
        Ok(o) => {
            let installed = match &game.installed_version {
                Some(v) => Some(v.as_str()),
                None => None,
            };
            let ghost before = game@;
            let mut info = match &game.github {
                Some(g) => g.duplicate(),
                None => {
                    return None;
                },
            };
            match o {
                ReleaseOutcome::Released(rel) => {
                    info.has_update = has_update(installed, Some(rel.tag.as_str()));
                    info.latest_tag = Some(rel.tag);
                    info.latest_url = Some(rel.url);
                    info.published_at = rel.published_at;
                    info.checked_at = Some(now.to_owned());
                },
                ReleaseOutcome::NotModified => {
                    info.checked_at = Some(now.to_owned());
                },
                ReleaseOutcome::NotFound => {
                    info.checked_at = Some(now.to_owned());
                    info.has_update = false;
                },
            }
            game.github = Some(info);
            None
        },
    }
}

/// Whether a game still needs artwork: not when its cover file exists
/// and it has SteamGridDB data.
pub fn needs_artwork(cover_exists: bool, game: &Game) -> (r: bool)
    ensures
        r == !(cover_exists && game.sgdb is Some),
{
    !(cover_exists && game.sgdb.is_some())
}

/// The warning for a failed artwork lookup of game `id`.
pub open spec fn sgdb_warning(id: Seq<char>, message: Seq<char>) -> Seq<char> {
    "sgdb "@ + id + ": "@ + message
}

/// Records the result of an artwork lookup: the SteamGridDB id, release
/// date and downloaded cover (no hero); a failure leaves the game as it
/// was and gives the warning to report.
pub fn apply_artwork(game: &mut Game, result: Result<(u64, Option<String>, Option<String>), String>) -> (r: Option<String>)
    ensures
        match result {
            Ok((id, release_date, cover)) => r is None && final(game)@ == GameV {
                sgdb: Some(SgdbInfoV { id, release_date: opt_str(release_date), cover: opt_str(cover), hero: None }),
                ..old(game)@
            },
            Err(m) => *final(game) == *old(game) && r is Some && r->0@ == sgdb_warning(old(game).id@, m@),
        },
{
    match result {
        Ok((id, release_date, cover)) => {
            game.sgdb = Some(SgdbInfo { id, release_date, cover, hero: None });
            None
        },
        Err(e) => {
            let mut m = chars_of("sgdb ");
            push_all(&mut m, &chars_of(game.id.as_str()));
            push_all(&mut m, &chars_of(": "));
            push_all(&mut m, &chars_of(e.as_str()));
            Some(string_from_chars(&m))
        },
    }
}

} // verus!
