//! Building the game list from discovered desktop entries, the catalog,
//! the user's own games and the previous state.

use vstd::prelude::*;

use crate::catalog::{entry_views, CatalogEntry, CatalogEntryV};
use crate::desktop::{DesktopEntry, DesktopEntryV};
use crate::desktop::string_views;
use crate::model::{clone_opt, clone_sgdb, clone_web, default_icon, default_icon_string, game_views, unchecked_github, Category, CustomGame, CustomGameV, Game, GameV, GithubInfo};

verus! {

/// The last game of `prev` with the given id (a later entry shadows an
/// earlier one, as when collecting into a map).
pub open spec fn find_prev(prev: Seq<GameV>, id: Seq<char>) -> Option<GameV>
    decreases prev.len(),
{
    if prev.len() == 0 {
        None
    } else if prev.last().id == id {
        Some(prev.last())
    } else {
        find_prev(prev.drop_last(), id)
    }
}

/// The last catalog entry with the given desktop id.
pub open spec fn find_by_desktop(cat: Seq<CatalogEntryV>, d: Seq<char>) -> Option<CatalogEntryV>
    decreases cat.len(),
{
    if cat.len() == 0 {
        None
    } else if cat.last().desktop_id == Some(d) {
        Some(cat.last())
    } else {
        find_by_desktop(cat.drop_last(), d)
    }
}

/// The version of the last pair for `id`.
pub open spec fn find_version(v: Seq<(Seq<char>, Seq<char>)>, id: Seq<char>) -> Option<Seq<char>>
    decreases v.len(),
{
    if v.len() == 0 {
        None
    } else if v.last().0 == id {
        Some(v.last().1)
    } else {
        find_version(v.drop_last(), id)
    }
}

/// The game built from a discovered desktop entry with stem `d`.
pub open spec fn discovered_game(
    cat: Seq<CatalogEntryV>,
    prev: Seq<GameV>,
    versions: Seq<(Seq<char>, Seq<char>)>,
    now: Seq<char>,
    entry: DesktopEntryV,
    d: Seq<char>,
) -> GameV {
    let c = find_by_desktop(cat, d);
    let id = match c {
        Some(c) => c.id,
        None => d,
    };
    let fallback_name = match entry.name {
        Some(n) => n,
        None => d,
    };
    let name = match c {
        Some(c) => match c.name {
            Some(n) => n,
            None => fallback_name,
        },
        None => fallback_name,
    };
    let repo = match c {
        Some(c) => c.github,
        None => None,
    };
    let prior = find_prev(prev, id);
    GameV {
        id,
        name,
        category: match c {
            Some(c) => c.category,
            None => Category::Custom,
        },
        exec_line: match entry.exec_line {
            Some(e) => e,
            None => Seq::<char>::empty(),
        },
        icon: match entry.icon {
            Some(i) => i,
            None => default_icon(),
        },
        desktop_id: Some(d),
        custom: false,
        added_at: match prior {
            Some(p) => p.added_at,
            None => now,
        },
        last_played: match prior {
            Some(p) => p.last_played,
            None => None,
        },
        play_count: match prior {
            Some(p) => p.play_count,
            None => 0,
        },
        installed_version: match find_version(versions, id) {
            Some(v) => Some(v),
            None => match prior {
                Some(p) => p.installed_version,
                None => None,
            },
        },
        github: match prior {
            Some(p) if p.github is Some => p.github,
            _ => match repo {
                Some(r) => Some(unchecked_github(r)),
                None => None,
            },
        },
        sgdb: match prior {
            Some(p) => p.sgdb,
            None => None,
        },
        web: match prior {
            Some(p) => p.web,
            None => None,
        },
    }
}

/// The game built from a user-added game.
pub open spec fn custom_game(prev: Seq<GameV>, now: Seq<char>, c: CustomGameV) -> GameV {
    let prior = find_prev(prev, c.id);
    GameV {
        id: c.id,
        name: c.name,
        category: c.category,
        exec_line: c.exec_line,
        icon: match c.icon {
            Some(i) => i,
            None => default_icon(),
        },
        desktop_id: None,
        custom: true,
        added_at: match prior {
            Some(p) => p.added_at,
            None => now,
        },
        last_played: match prior {
            Some(p) => p.last_played,
            None => None,
        },
        play_count: match prior {
            Some(p) => p.play_count,
            None => 0,
        },
        installed_version: match prior {
            Some(p) => p.installed_version,
            None => None,
        },
        github: match prior {
            Some(p) if p.github is Some => p.github,
            _ => match c.github {
                Some(r) => Some(unchecked_github(r)),
                None => None,
            },
        },
        sgdb: match prior {
            Some(p) => p.sgdb,
            None => None,
        },
        web: match prior {
            Some(p) => p.web,
            None => None,
        },
    }
}

/// The games of the discovered entries, in order.
pub open spec fn discovered_games(
    cat: Seq<CatalogEntryV>,
    prev: Seq<GameV>,
    versions: Seq<(Seq<char>, Seq<char>)>,
    now: Seq<char>,
    disc: Seq<(DesktopEntryV, Seq<char>)>,
) -> Seq<GameV>
    decreases disc.len(),
{
    if disc.len() == 0 {
        Seq::<GameV>::empty()
    } else {
        discovered_games(cat, prev, versions, now, disc.drop_last()).push(
            discovered_game(cat, prev, versions, now, disc.last().0, disc.last().1),
        )
    }
}

/// Whether some game has the given id.
pub open spec fn has_id(games: Seq<GameV>, id: Seq<char>) -> bool {
    exists|i: int| 0 <= i < games.len() && games[i].id == id
}

/// `games` followed by the user's games whose ids are not taken yet.
pub open spec fn with_customs(
    games: Seq<GameV>,
    prev: Seq<GameV>,
    now: Seq<char>,
    customs: Seq<CustomGameV>,
) -> Seq<GameV>
    decreases customs.len(),
{
    if customs.len() == 0 {
        games
    } else {
        let r = with_customs(games, prev, now, customs.drop_last());
        let c = customs.last();
        if has_id(r, c.id) {
            r
        } else {
            r.push(custom_game(prev, now, c))
        }
    }
}

/// Whether a game stays visible: not hidden by the user, not hidden by
/// default in the catalog.
pub open spec fn visible(g: GameV, hidden: Seq<Seq<char>>, cat: Seq<CatalogEntryV>) -> bool {
    !hidden.contains(g.id) && !(exists|k: int|
        0 <= k < cat.len() && cat[k].hidden_default && cat[k].id == g.id)
}

/// The visible games, in order.
pub open spec fn keep_visible(games: Seq<GameV>, hidden: Seq<Seq<char>>, cat: Seq<CatalogEntryV>) -> Seq<
    GameV,
>
    decreases games.len(),
{
    if games.len() == 0 {
        Seq::<GameV>::empty()
    } else {
        let r = keep_visible(games.drop_last(), hidden, cat);
        if visible(games.last(), hidden, cat) {
            r.push(games.last())
        } else {
            r
        }
    }
}

/// The result of `reconcile`.
pub open spec fn reconciled(
    cat: Seq<CatalogEntryV>,
    disc: Seq<(DesktopEntryV, Seq<char>)>,
    customs: Seq<CustomGameV>,
    hidden: Seq<Seq<char>>,
    prev: Seq<GameV>,
    versions: Seq<(Seq<char>, Seq<char>)>,
    now: Seq<char>,
) -> Seq<GameV> {
    keep_visible(
        with_customs(discovered_games(cat, prev, versions, now, disc), prev, now, customs),
        hidden,
        cat,
    )
}

/// The values of discovered (entry, stem) pairs.
pub open spec fn discovered_views(s: Seq<(DesktopEntry, String)>) -> Seq<(DesktopEntryV, Seq<char>)> {
    s.map_values(|p: (DesktopEntry, String)| (p.0@, p.1@))
}

/// The values of (id, version) pairs.
pub open spec fn pair_views(s: Seq<(String, String)>) -> Seq<(Seq<char>, Seq<char>)> {
    s.map_values(|p: (String, String)| (p.0@, p.1@))
}

/// The values of user-added games.
pub open spec fn custom_views(s: Seq<CustomGame>) -> Seq<CustomGameV> {
    s.map_values(|c: CustomGame| c@)
}

fn find_catalog(cat: &[CatalogEntry], d: &String) -> (r: Option<usize>)
    ensures
        match r {
            Some(i) => i < cat.len() && find_by_desktop(entry_views(cat@), d@) == Some(cat@[i as int]@),
            None => find_by_desktop(entry_views(cat@), d@) is None,
        },
{
    let ghost v = entry_views(cat@);
    let mut i = cat.len();
    assert(v.take(i as int) =~= v);
    while i > 0
        invariant
            i <= cat.len(),
            v == entry_views(cat@),
            find_by_desktop(v, d@) == find_by_desktop(v.take(i as int), d@),
        decreases i,
    {
        let hit = match &cat[i - 1].desktop_id {
            Some(x) => *x == *d,
            None => false,
        };
        assert(v.take(i as int).drop_last() =~= v.take(i - 1));
        assert(v.take(i as int).last() == cat@[i - 1]@);
        if hit {
            return Some(i - 1);
        }
        i = i - 1;
    }
    None
}

fn find_prior(prev: &[Game], id: &String) -> (r: Option<usize>)
    ensures
        match r {
            Some(i) => i < prev.len() && find_prev(game_views(prev@), id@) == Some(prev@[i as int]@),
            None => find_prev(game_views(prev@), id@) is None,
        },
{
    let ghost v = game_views(prev@);
    let mut i = prev.len();
    assert(v.take(i as int) =~= v);
    while i > 0
        invariant
            i <= prev.len(),
            v == game_views(prev@),
            find_prev(v, id@) == find_prev(v.take(i as int), id@),
        decreases i,
    {
        assert(v.take(i as int).drop_last() =~= v.take(i - 1));
        assert(v.take(i as int).last() == prev@[i - 1]@);
        if prev[i - 1].id == *id {
            return Some(i - 1);
        }
        i = i - 1;
    }
    None
}

fn find_installed(versions: &[(String, String)], id: &String) -> (r: Option<String>)
    ensures
        match r {
            Some(s) => find_version(pair_views(versions@), id@) == Some(s@),
            None => find_version(pair_views(versions@), id@) is None,
        },
{
    let ghost v = pair_views(versions@);
    let mut i = versions.len();
    assert(v.take(i as int) =~= v);
    while i > 0
        invariant
            i <= versions.len(),
            v == pair_views(versions@),
            find_version(v, id@) == find_version(v.take(i as int), id@),
        decreases i,
    {
        assert(v.take(i as int).drop_last() =~= v.take(i - 1));
        assert(v.take(i as int).last() == (versions@[i - 1].0@, versions@[i - 1].1@));
        if versions[i - 1].0 == *id {
            return Some(versions[i - 1].1.clone());
        }
        i = i - 1;
    }
    None
}

fn game_for_discovered(
    catalog: &[CatalogEntry],
    prev_state: &[Game],
    installed_versions: &[(String, String)],
    now: &str,
    entry: &DesktopEntry,
    desktop_id: &String,
) -> (r: Game)
    ensures
        r@ == discovered_game(
            entry_views(catalog@),
            game_views(prev_state@),
            pair_views(installed_versions@),
            now@,
            entry@,
            desktop_id@,
        ),
{
    let c = find_catalog(catalog, desktop_id);
    let fallback_name = match &entry.name {
        Some(n) => n.clone(),
        None => desktop_id.clone(),
    };
    let (id, name, category, repo) = match c {
        Some(i) => {
            let e = &catalog[i];
            let name = match &e.name {
                Some(n) => n.clone(),
                None => fallback_name,
            };
            (e.id.clone(), name, e.category, clone_opt(&e.github))
        },
        None => (desktop_id.clone(), fallback_name, Category::Custom, None),
    };
    let prior = find_prior(prev_state, &id);
    let fresh = find_installed(installed_versions, &id);
    let exec_line = match &entry.exec_line {
        Some(e) => e.clone(),
        None => String::new(),
    };
    let icon = match &entry.icon {
        Some(i) => i.clone(),
        None => default_icon_string(),
    };
    match prior {
        Some(p) => {
            let g = &prev_state[p];
            let installed_version = match fresh {
                Some(v) => Some(v),
                None => clone_opt(&g.installed_version),
            };
            let github = match &g.github {
                Some(x) => Some(x.duplicate()),
                None => match repo {
                    Some(r) => Some(GithubInfo::unchecked(r)),
                    None => None,
                },
            };
            Game {
                id,
                name,
                category,
                exec_line,
                icon,
                desktop_id: Some(desktop_id.clone()),
                custom: false,
                added_at: g.added_at.clone(),
                last_played: clone_opt(&g.last_played),
                play_count: g.play_count,
                installed_version,
                github,
                sgdb: clone_sgdb(&g.sgdb),
                web: clone_web(&g.web),
            }
        },
        None => {
            let github = match repo {
                Some(r) => Some(GithubInfo::unchecked(r)),
                None => None,
            };
            Game {
                id,
                name,
                category,
                exec_line,
                icon,
                desktop_id: Some(desktop_id.clone()),
                custom: false,
                added_at: now.to_owned(),
                last_played: None,
                play_count: 0,
                installed_version: fresh,
                github,
                sgdb: None,
                web: None,
            }
        },
    }
}

fn game_for_custom(prev_state: &[Game], now: &str, c: &CustomGame) -> (r: Game)
    ensures
        r@ == custom_game(game_views(prev_state@), now@, c@),
{
    let prior = find_prior(prev_state, &c.id);
    let icon = match &c.icon {
        Some(i) => i.clone(),
        None => default_icon_string(),
    };
    match prior {
        Some(p) => {
            let g = &prev_state[p];
            let github = match &g.github {
                Some(x) => Some(x.duplicate()),
                None => match &c.github {
                    Some(r) => Some(GithubInfo::unchecked(r.clone())),
                    None => None,
                },
            };
            Game {
                id: c.id.clone(),
                name: c.name.clone(),
                category: c.category,
                exec_line: c.exec_line.clone(),
                icon,
                desktop_id: None,
                custom: true,
                added_at: g.added_at.clone(),
                last_played: clone_opt(&g.last_played),
                play_count: g.play_count,
                installed_version: clone_opt(&g.installed_version),
                github,
                sgdb: clone_sgdb(&g.sgdb),
                web: clone_web(&g.web),
            }
        },
        None => {
            let github = match &c.github {
                Some(r) => Some(GithubInfo::unchecked(r.clone())),
                None => None,
            };
            Game {
                id: c.id.clone(),
                name: c.name.clone(),
                category: c.category,
                exec_line: c.exec_line.clone(),
                icon,
                desktop_id: None,
                custom: true,
                added_at: now.to_owned(),
                last_played: None,
                play_count: 0,
                installed_version: None,
                github,
                sgdb: None,
                web: None,
            }
        },
    }
}

fn has_game_id(games: &Vec<Game>, id: &String) -> (r: bool)
    ensures
        r == has_id(game_views(games@), id@),
{
    let mut i: usize = 0;
    while i < games.len()
        invariant
            i <= games.len(),
            forall|k: int| 0 <= k < i ==> games@[k].id@ != id@,
        decreases games.len() - i,
    {
        if games[i].id == *id {
            assert(game_views(games@)[i as int].id == id@);
            return true;
        }
        i = i + 1;
    }
    assert forall|k: int| 0 <= k < games@.len() implies game_views(games@)[k].id != id@ by {
        assert(game_views(games@)[k] == games@[k]@);
    }
    false
}

fn is_visible(g: &Game, hidden: &[String], catalog: &[CatalogEntry]) -> (r: bool)
    ensures
        r == visible(g@, string_views(hidden@), entry_views(catalog@)),
{
    let mut i: usize = 0;
    while i < hidden.len()
        invariant
            i <= hidden.len(),
            forall|k: int| 0 <= k < i ==> hidden@[k]@ != g.id@,
        decreases hidden.len() - i,
    {
        if hidden[i] == g.id {
            assert(string_views(hidden@)[i as int] == g.id@);
            return false;
        }
        i = i + 1;
    }
    assert(!string_views(hidden@).contains(g.id@)) by {
        assert forall|k: int| 0 <= k < hidden@.len() implies string_views(hidden@)[k] != g.id@ by {
            assert(string_views(hidden@)[k] == hidden@[k]@);
        }
    }
    let mut j: usize = 0;
    while j < catalog.len()
        invariant
            j <= catalog.len(),
            forall|k: int| 0 <= k < j ==> !(catalog@[k].hidden_default && catalog@[k].id@ == g.id@),
        decreases catalog.len() - j,
    {
        if catalog[j].hidden_default && catalog[j].id == g.id {
            assert(entry_views(catalog@)[j as int] == catalog@[j as int]@);
            return false;
        }
        j = j + 1;
    }
    assert forall|k: int| 0 <= k < catalog@.len() implies !(entry_views(catalog@)[k].hidden_default
        && entry_views(catalog@)[k].id == g.id@) by {
        assert(entry_views(catalog@)[k] == catalog@[k]@);
    }
    true
}

/// Build the game list from discovered desktop entries, the curated
/// catalog, user customizations and the previous state. Pure: the caller
/// performs all I/O (desktop scan, version-file reads, clock).
///
/// - `discovered` pairs a parsed desktop entry with its file stem (desktop id).
/// - `hidden` holds the ids the user hid.
/// - `installed_versions` holds (catalog id, detected installed version)
///   pairs; a later pair for the same id overrides an earlier one.
/// - Prev-state games matched by id keep added_at/last_played/play_count/
///   github/sgdb/web, and installed_version when no fresh detection
///   overrides it.
pub fn reconcile(
    catalog: &[CatalogEntry],
    discovered: &[(DesktopEntry, String)],
    custom: &[CustomGame],
    hidden: &[String],
    prev_state: &[Game],
    installed_versions: &[(String, String)],
    now: &str,
) -> (r: Vec<Game>)
    ensures
        game_views(r@) == reconciled(
            entry_views(catalog@),
            discovered_views(discovered@),
            custom_views(custom@),
            string_views(hidden@),
            game_views(prev_state@),
            pair_views(installed_versions@),
            now@,
        ),
{
    let ghost cat = entry_views(catalog@);
    let ghost prev = game_views(prev_state@);
    let ghost vers = pair_views(installed_versions@);
    let ghost disc = discovered_views(discovered@);
    let ghost cust = custom_views(custom@);
    let mut games: Vec<Game> = Vec::new();
    let mut i: usize = 0;
    assert(disc.take(0) =~= Seq::<(DesktopEntryV, Seq<char>)>::empty());
    assert(game_views(games@) =~= Seq::<GameV>::empty());
    while i < discovered.len()
        invariant
            i <= discovered.len(),
            disc == discovered_views(discovered@),
            cat == entry_views(catalog@),
            prev == game_views(prev_state@),
            vers == pair_views(installed_versions@),
            game_views(games@) == discovered_games(cat, prev, vers, now@, disc.take(i as int)),
        decreases discovered.len() - i,
    {
        let (entry, desktop_id) = (&discovered[i].0, &discovered[i].1);
        let g = game_for_discovered(catalog, prev_state, installed_versions, now, entry, desktop_id);
        assert(disc.take(i + 1).drop_last() =~= disc.take(i as int));
        assert(disc.take(i + 1).last() == (entry@, desktop_id@));
        games.push(g);
        assert(game_views(games@) =~= discovered_games(cat, prev, vers, now@, disc.take(i + 1)));
        i = i + 1;
    }
    assert(disc.take(discovered.len() as int) =~= disc);
    let ghost base = game_views(games@);
    let mut j: usize = 0;
    assert(cust.take(0) =~= Seq::<CustomGameV>::empty());
    while j < custom.len()
        invariant
            j <= custom.len(),
            cust == custom_views(custom@),
            prev == game_views(prev_state@),
            game_views(games@) == with_customs(base, prev, now@, cust.take(j as int)),
        decreases custom.len() - j,
    {
        let c = &custom[j];
        assert(cust.take(j + 1).drop_last() =~= cust.take(j as int));
        assert(cust.take(j + 1).last() == c@);
        if !has_game_id(&games, &c.id) {
            let g = game_for_custom(prev_state, now, c);
            games.push(g);
            assert(game_views(games@) =~= with_customs(base, prev, now@, cust.take(j + 1)));
        }
        j = j + 1;
    }
    assert(cust.take(custom.len() as int) =~= cust);
    let ghost all = game_views(games@);
    let mut out: Vec<Game> = Vec::new();
    let mut k: usize = 0;
    assert(all.take(0) =~= Seq::<GameV>::empty());
    assert(game_views(out@) =~= Seq::<GameV>::empty());
    while k < games.len()
        invariant
            k <= games.len(),
            all == game_views(games@),
            cat == entry_views(catalog@),
            game_views(out@) == keep_visible(all.take(k as int), string_views(hidden@), cat),
        decreases games.len() - k,
    {
        assert(all.take(k + 1).drop_last() =~= all.take(k as int));
        assert(all.take(k + 1).last() == games@[k as int]@);
        if is_visible(&games[k], hidden, catalog) {
            out.push(games[k].duplicate());
            assert(game_views(out@) =~= keep_visible(all.take(k + 1), string_views(hidden@), cat));
        }
        k = k + 1;
    }
    assert(all.take(games.len() as int) =~= all);
    out
}

proof fn lemma_keep_visible(games: Seq<GameV>, hidden: Seq<Seq<char>>, cat: Seq<CatalogEntryV>)
    ensures
        forall|i: int|
            0 <= i < keep_visible(games, hidden, cat).len() ==> visible(
                #[trigger] keep_visible(games, hidden, cat)[i],
                hidden,
                cat,
            ),
        forall|g: GameV| games.contains(g) && visible(g, hidden, cat) ==> keep_visible(games, hidden, cat).contains(g),
    decreases games.len(),
{
    if games.len() > 0 {
        lemma_keep_visible(games.drop_last(), hidden, cat);
        let r = keep_visible(games.drop_last(), hidden, cat);
        assert forall|g: GameV| games.contains(g) && visible(g, hidden, cat) implies keep_visible(games, hidden, cat).contains(g) by {
            let k = choose|k: int| 0 <= k < games.len() && games[k] == g;
            if k < games.len() - 1 {
                assert(games.drop_last()[k] == g);
                assert(games.drop_last().contains(g));
                assert(r.contains(g));
                let x = choose|x: int| 0 <= x < r.len() && r[x] == g;
                let m = keep_visible(games, hidden, cat);
                if visible(games.last(), hidden, cat) {
                    assert(m == r.push(games.last()));
                    assert(m[x] == g);
                } else {
                    assert(m == r);
                }
                assert(m.contains(g));
            } else {
                let m = keep_visible(games, hidden, cat);
                assert(m[m.len() - 1] == g);
            }
        }
    }
}

/// A rescan keeps what was recorded about a game: when the previous state
/// has a game with the same id, the rebuilt game keeps its added time,
/// last play, play count, artwork and web tracking, its release tracking
/// when it had it, and its installed version unless a fresh detection replaces
/// it.
pub proof fn lemma_rescan_keeps_history(
    cat: Seq<CatalogEntryV>,
    prev: Seq<GameV>,
    versions: Seq<(Seq<char>, Seq<char>)>,
    now: Seq<char>,
    entry: DesktopEntryV,
    d: Seq<char>,
    c: CustomGameV,
)
    ensures
        ({
            let g = discovered_game(cat, prev, versions, now, entry, d);
            find_prev(prev, g.id) matches Some(p) ==> {
                &&& g.added_at == p.added_at
                &&& g.last_played == p.last_played
                &&& g.play_count == p.play_count
                &&& g.sgdb == p.sgdb
                &&& (p.github is Some ==> g.github == p.github)
                &&& g.web == p.web
                &&& g.installed_version == match find_version(versions, g.id) {
                    Some(v) => Some(v),
                    None => p.installed_version,
                }
            }
        }),
        ({
            let g = custom_game(prev, now, c);
            find_prev(prev, c.id) matches Some(p) ==> {
                &&& g.added_at == p.added_at
                &&& g.last_played == p.last_played
                &&& g.play_count == p.play_count
                &&& g.sgdb == p.sgdb
                &&& g.installed_version == p.installed_version
                &&& g.web == p.web
                &&& (p.github is Some ==> g.github == p.github)
            }
        }),
{
}

/// A hidden game never shows: every game `reconcile` returns is neither in
/// the user's hidden list nor marked hidden by default in the catalog.
pub proof fn lemma_reconcile_visibility(
    cat: Seq<CatalogEntryV>,
    disc: Seq<(DesktopEntryV, Seq<char>)>,
    customs: Seq<CustomGameV>,
    hidden: Seq<Seq<char>>,
    prev: Seq<GameV>,
    versions: Seq<(Seq<char>, Seq<char>)>,
    now: Seq<char>,
)
    ensures
        forall|i: int|
            0 <= i < reconciled(cat, disc, customs, hidden, prev, versions, now).len() ==> {
                let g = #[trigger] reconciled(cat, disc, customs, hidden, prev, versions, now)[i];
                &&& !hidden.contains(g.id)
                &&& forall|k: int| 0 <= k < cat.len() && cat[k].id == g.id ==> !cat[k].hidden_default
            },
{
    let all = with_customs(discovered_games(cat, prev, versions, now, disc), prev, now, customs);
    lemma_keep_visible(all, hidden, cat);
}

/// A user-added game never takes an id that is already in the list: in the
/// list before hiding, every game added from `customs` has an id that no
/// earlier game has, and the games before them are the discovered ones.
pub proof fn lemma_custom_ids_fresh(
    games: Seq<GameV>,
    prev: Seq<GameV>,
    now: Seq<char>,
    customs: Seq<CustomGameV>,
)
    ensures
        with_customs(games, prev, now, customs).len() >= games.len(),
        forall|i: int| 0 <= i < games.len() ==> #[trigger] with_customs(games, prev, now, customs)[i] == games[i],
        forall|i: int, j: int|
            0 <= i < j < with_customs(games, prev, now, customs).len() && j >= games.len() ==>
                #[trigger] with_customs(games, prev, now, customs)[i].id != #[trigger] with_customs(
                games,
                prev,
                now,
                customs,
            )[j].id,
    decreases customs.len(),
{
    if customs.len() > 0 {
        lemma_custom_ids_fresh(games, prev, now, customs.drop_last());
        let r = with_customs(games, prev, now, customs.drop_last());
        let c = customs.last();
        if !has_id(r, c.id) {
            let n = r.push(custom_game(prev, now, c));
            assert forall|i: int, j: int| 0 <= i < j < n.len() && j >= games.len() implies #[trigger] n[i].id != #[trigger] n[j].id by {
                if j == n.len() - 1 {
                    assert(n[i] == r[i]);
                    assert(n[j].id == c.id);
                } else {
                    assert(n[i] == r[i] && n[j] == r[j]);
                }
            }
        }
    }
}


/// No two games share an id.
pub open spec fn ids_distinct(games: Seq<GameV>) -> bool {
    forall|i: int, j: int| 0 <= i < j < games.len() ==> #[trigger] games[i].id != #[trigger] games[j].id
}

/// What a rebuilt game keeps of the previous state: everything recorded
/// about the game with its id there (the release record when there was
/// one), or, for a game new to the list, the scan time and no plays and no
/// artwork.
pub open spec fn keeps_history(g: GameV, prev: Seq<GameV>, now: Seq<char>) -> bool {
    &&& forall|j: int|
        0 <= j < prev.len() && #[trigger] prev[j].id == g.id ==> {
            &&& g.added_at == prev[j].added_at
            &&& g.last_played == prev[j].last_played
            &&& g.play_count == prev[j].play_count
            &&& g.sgdb == prev[j].sgdb
            &&& (prev[j].github is Some ==> g.github == prev[j].github)
        }
    &&& (forall|j: int| 0 <= j < prev.len() ==> #[trigger] prev[j].id != g.id) ==> {
        &&& g.added_at == now
        &&& g.last_played is None
        &&& g.play_count == 0
        &&& g.sgdb is None
    }
}

proof fn lemma_find_prev(prev: Seq<GameV>, id: Seq<char>)
    requires
        ids_distinct(prev),
    ensures
        forall|j: int| 0 <= j < prev.len() && #[trigger] prev[j].id == id ==> find_prev(prev, id) == Some(prev[j]),
        (forall|j: int| 0 <= j < prev.len() ==> #[trigger] prev[j].id != id) ==> find_prev(prev, id) is None,
    decreases prev.len(),
{
    if prev.len() > 0 {
        let d = prev.drop_last();
        assert forall|i: int, j: int| 0 <= i < j < d.len() implies #[trigger] d[i].id != #[trigger] d[j].id by {
            assert(d[i] == prev[i] && d[j] == prev[j]);
        }
        lemma_find_prev(d, id);
        assert forall|j: int| 0 <= j < prev.len() && #[trigger] prev[j].id == id implies find_prev(prev, id)
            == Some(prev[j]) by {
            if j < prev.len() - 1 {
                assert(d[j] == prev[j]);
                assert(prev.last().id != id);
            }
        }
        if forall|j: int| 0 <= j < prev.len() ==> #[trigger] prev[j].id != id {
            assert(prev[prev.len() - 1].id != id);
            assert forall|j: int| 0 <= j < d.len() implies #[trigger] d[j].id != id by {
                assert(d[j] == prev[j]);
            }
        }
    }
}

proof fn lemma_discovered_game_keeps(
    cat: Seq<CatalogEntryV>,
    prev: Seq<GameV>,
    versions: Seq<(Seq<char>, Seq<char>)>,
    now: Seq<char>,
    entry: DesktopEntryV,
    d: Seq<char>,
)
    requires
        ids_distinct(prev),
    ensures
        keeps_history(discovered_game(cat, prev, versions, now, entry, d), prev, now),
{
    let g = discovered_game(cat, prev, versions, now, entry, d);
    lemma_find_prev(prev, g.id);
}

proof fn lemma_custom_game_keeps(prev: Seq<GameV>, now: Seq<char>, c: CustomGameV)
    requires
        ids_distinct(prev),
    ensures
        keeps_history(custom_game(prev, now, c), prev, now),
{
    lemma_find_prev(prev, c.id);
}

proof fn lemma_discovered_keep_history(
    cat: Seq<CatalogEntryV>,
    prev: Seq<GameV>,
    versions: Seq<(Seq<char>, Seq<char>)>,
    now: Seq<char>,
    disc: Seq<(DesktopEntryV, Seq<char>)>,
)
    requires
        ids_distinct(prev),
    ensures
        forall|i: int|
            0 <= i < discovered_games(cat, prev, versions, now, disc).len() ==> keeps_history(
                #[trigger] discovered_games(cat, prev, versions, now, disc)[i],
                prev,
                now,
            ),
    decreases disc.len(),
{
    if disc.len() > 0 {
        lemma_discovered_keep_history(cat, prev, versions, now, disc.drop_last());
        let r = discovered_games(cat, prev, versions, now, disc.drop_last());
        lemma_discovered_game_keeps(cat, prev, versions, now, disc.last().0, disc.last().1);
        let m = discovered_games(cat, prev, versions, now, disc);
        assert forall|i: int| 0 <= i < m.len() implies keeps_history(#[trigger] m[i], prev, now) by {
            if i < r.len() {
                assert(m[i] == r[i]);
            }
        }
    }
}

proof fn lemma_customs_keep_history(games: Seq<GameV>, prev: Seq<GameV>, now: Seq<char>, customs: Seq<CustomGameV>)
    requires
        ids_distinct(prev),
        forall|i: int| 0 <= i < games.len() ==> keeps_history(#[trigger] games[i], prev, now),
    ensures
        forall|i: int|
            0 <= i < with_customs(games, prev, now, customs).len() ==> keeps_history(
                #[trigger] with_customs(games, prev, now, customs)[i],
                prev,
                now,
            ),
    decreases customs.len(),
{
    if customs.len() > 0 {
        lemma_customs_keep_history(games, prev, now, customs.drop_last());
        let r = with_customs(games, prev, now, customs.drop_last());
        lemma_custom_game_keeps(prev, now, customs.last());
        let m = with_customs(games, prev, now, customs);
        assert forall|i: int| 0 <= i < m.len() implies keeps_history(#[trigger] m[i], prev, now) by {
            if i < r.len() {
                assert(m[i] == r[i]);
            }
        }
    }
}

proof fn lemma_visible_subset(games: Seq<GameV>, hidden: Seq<Seq<char>>, cat: Seq<CatalogEntryV>)
    ensures
        forall|i: int|
            0 <= i < keep_visible(games, hidden, cat).len() ==> games.contains(
                #[trigger] keep_visible(games, hidden, cat)[i],
            ),
    decreases games.len(),
{
    if games.len() > 0 {
        lemma_visible_subset(games.drop_last(), hidden, cat);
        let r = keep_visible(games.drop_last(), hidden, cat);
        let m = keep_visible(games, hidden, cat);
        assert forall|i: int| 0 <= i < m.len() implies games.contains(#[trigger] m[i]) by {
            if i < r.len() {
                assert(m[i] == r[i]);
                let k = choose|k: int| 0 <= k < games.drop_last().len() && games.drop_last()[k] == r[i];
                assert(games[k] == r[i]);
            } else {
                assert(m[i] == games.last());
                assert(games[games.len() - 1] == m[i]);
            }
        }
    }
}

/// A rescan keeps prior state: when the previous list has no repeated id,
/// every game `reconcile` returns keeps the added time, last play, play
/// count and artwork (and the release record, when there was one) of the
/// previous game with its id; a game new to the list gets the scan time,
/// no plays and no artwork.
pub proof fn lemma_reconcile_keeps_prior_state(
    cat: Seq<CatalogEntryV>,
    disc: Seq<(DesktopEntryV, Seq<char>)>,
    customs: Seq<CustomGameV>,
    hidden: Seq<Seq<char>>,
    prev: Seq<GameV>,
    versions: Seq<(Seq<char>, Seq<char>)>,
    now: Seq<char>,
)
    requires
        ids_distinct(prev),
    ensures
        forall|i: int|
            0 <= i < reconciled(cat, disc, customs, hidden, prev, versions, now).len() ==> keeps_history(
                #[trigger] reconciled(cat, disc, customs, hidden, prev, versions, now)[i],
                prev,
                now,
            ),
{
    let games = discovered_games(cat, prev, versions, now, disc);
    lemma_discovered_keep_history(cat, prev, versions, now, disc);
    lemma_customs_keep_history(games, prev, now, customs);
    let all = with_customs(games, prev, now, customs);
    lemma_visible_subset(all, hidden, cat);
    let r = reconciled(cat, disc, customs, hidden, prev, versions, now);
    assert forall|i: int| 0 <= i < r.len() implies keeps_history(#[trigger] r[i], prev, now) by {
        assert(all.contains(r[i]));
        let k = choose|k: int| 0 <= k < all.len() && all[k] == r[i];
        assert(keeps_history(all[k], prev, now));
    }
}

/// The games of `games` whose ids are not in `hidden`, in order.
pub open spec fn without_hidden(games: Seq<GameV>, hidden: Seq<Seq<char>>) -> Seq<GameV>
    decreases games.len(),
{
    if games.len() == 0 {
        games
    } else if hidden.contains(games.last().id) {
        without_hidden(games.drop_last(), hidden)
    } else {
        without_hidden(games.drop_last(), hidden).push(games.last())
    }
}

proof fn lemma_keep_visible_split(games: Seq<GameV>, hidden: Seq<Seq<char>>, cat: Seq<CatalogEntryV>)
    ensures
        keep_visible(games, hidden, cat) == without_hidden(keep_visible(games, Seq::empty(), cat), hidden),
    decreases games.len(),
{
    if games.len() > 0 {
        lemma_keep_visible_split(games.drop_last(), hidden, cat);
        let g = games.last();
        let r0 = keep_visible(games.drop_last(), Seq::empty(), cat);
        assert(!Seq::<Seq<char>>::empty().contains(g.id));
        if visible(g, Seq::empty(), cat) {
            assert(r0.push(g).drop_last() =~= r0);
        }
    }
}

/// Hiding commutes with reconciling: reconciling with hidden ids gives the
/// list reconciled with nothing hidden, less the games with those ids.
pub proof fn lemma_reconcile_hiding_commutes(
    cat: Seq<CatalogEntryV>,
    disc: Seq<(DesktopEntryV, Seq<char>)>,
    customs: Seq<CustomGameV>,
    hidden: Seq<Seq<char>>,
    prev: Seq<GameV>,
    versions: Seq<(Seq<char>, Seq<char>)>,
    now: Seq<char>,
)
    ensures
        reconciled(cat, disc, customs, hidden, prev, versions, now) == without_hidden(
            reconciled(cat, disc, customs, Seq::empty(), prev, versions, now),
            hidden,
        ),
{
    let all = with_customs(discovered_games(cat, prev, versions, now, disc), prev, now, customs);
    lemma_keep_visible_split(all, hidden, cat);
}


proof fn lemma_find_by_desktop(cat: Seq<CatalogEntryV>, d: Seq<char>)
    ensures
        forall|k: int|
            0 <= k < cat.len() && #[trigger] cat[k].desktop_id == Some(d) && (forall|j: int|
                k < j < cat.len() ==> #[trigger] cat[j].desktop_id != Some(d)) ==> find_by_desktop(cat, d)
                == Some(cat[k]),
        (forall|k: int| 0 <= k < cat.len() ==> #[trigger] cat[k].desktop_id != Some(d)) ==> find_by_desktop(
            cat,
            d,
        ) is None,
    decreases cat.len(),
{
    if cat.len() > 0 {
        let c = cat.drop_last();
        lemma_find_by_desktop(c, d);
        assert forall|k: int|
            0 <= k < cat.len() && #[trigger] cat[k].desktop_id == Some(d) && (forall|j: int|
                k < j < cat.len() ==> #[trigger] cat[j].desktop_id != Some(d)) implies find_by_desktop(cat, d)
            == Some(cat[k]) by {
            if k < cat.len() - 1 {
                assert(cat[cat.len() - 1].desktop_id != Some(d));
                assert(c[k] == cat[k]);
                assert forall|j: int| k < j < c.len() implies #[trigger] c[j].desktop_id != Some(d) by {
                    assert(c[j] == cat[j]);
                }
            }
        }
        if forall|k: int| 0 <= k < cat.len() ==> #[trigger] cat[k].desktop_id != Some(d) {
            assert(cat[cat.len() - 1].desktop_id != Some(d));
            assert forall|k: int| 0 <= k < c.len() implies #[trigger] c[k].desktop_id != Some(d) by {
                assert(c[k] == cat[k]);
            }
        }
    }
}

proof fn lemma_discovered_origin(
    cat: Seq<CatalogEntryV>,
    prev: Seq<GameV>,
    versions: Seq<(Seq<char>, Seq<char>)>,
    now: Seq<char>,
    disc: Seq<(DesktopEntryV, Seq<char>)>,
)
    ensures
        forall|i: int|
            0 <= i < discovered_games(cat, prev, versions, now, disc).len() ==> exists|j: int|
                0 <= j < disc.len() && #[trigger] discovered_games(cat, prev, versions, now, disc)[i]
                    == discovered_game(cat, prev, versions, now, disc[j].0, disc[j].1),
    decreases disc.len(),
{
    if disc.len() > 0 {
        let dl = disc.drop_last();
        lemma_discovered_origin(cat, prev, versions, now, dl);
        let r = discovered_games(cat, prev, versions, now, dl);
        let m = discovered_games(cat, prev, versions, now, disc);
        assert forall|i: int| 0 <= i < m.len() implies exists|j: int|
            0 <= j < disc.len() && #[trigger] m[i] == discovered_game(cat, prev, versions, now, disc[j].0, disc[j].1) by {
            if i < r.len() {
                assert(m[i] == r[i]);
                let j = choose|j: int|
                    0 <= j < dl.len() && #[trigger] r[i] == discovered_game(cat, prev, versions, now, dl[j].0, dl[j].1);
                assert(dl[j] == disc[j]);
            } else {
                let j = disc.len() - 1;
                assert(disc[j] == disc.last());
                assert(m[i] == discovered_game(cat, prev, versions, now, disc[j].0, disc[j].1));
            }
        }
    }
}

proof fn lemma_customs_no_desktop(games: Seq<GameV>, prev: Seq<GameV>, now: Seq<char>, customs: Seq<CustomGameV>)
    ensures
        forall|i: int|
            0 <= i < with_customs(games, prev, now, customs).len() && (#[trigger] with_customs(
                games,
                prev,
                now,
                customs,
            )[i]).desktop_id is Some ==> games.contains(with_customs(games, prev, now, customs)[i]),
    decreases customs.len(),
{
    if customs.len() > 0 {
        lemma_customs_no_desktop(games, prev, now, customs.drop_last());
        let r = with_customs(games, prev, now, customs.drop_last());
        let m = with_customs(games, prev, now, customs);
        assert forall|i: int| 0 <= i < m.len() && (#[trigger] m[i]).desktop_id is Some implies games.contains(m[i]) by {
            if i < r.len() {
                assert(m[i] == r[i]);
            }
        }
    }
}

/// A discovered game takes its id and category from the catalog: when the
/// catalog's last entry with desktop id `d` is `cat[k]`, every returned
/// game with desktop id `d` is a discovered (not custom) game with
/// `cat[k]`'s id and category; when no catalog entry has desktop id `d`,
/// such a game keeps the stem `d` as its id and is `Custom`.
pub proof fn lemma_reconcile_catalog_match(
    cat: Seq<CatalogEntryV>,
    disc: Seq<(DesktopEntryV, Seq<char>)>,
    customs: Seq<CustomGameV>,
    hidden: Seq<Seq<char>>,
    prev: Seq<GameV>,
    versions: Seq<(Seq<char>, Seq<char>)>,
    now: Seq<char>,
    d: Seq<char>,
)
    ensures
        forall|i: int, k: int|
            0 <= i < reconciled(cat, disc, customs, hidden, prev, versions, now).len() && (#[trigger] reconciled(
                cat,
                disc,
                customs,
                hidden,
                prev,
                versions,
                now,
            )[i]).desktop_id == Some(d) && 0 <= k < cat.len() && #[trigger] cat[k].desktop_id == Some(d)
                && (forall|j: int| k < j < cat.len() ==> #[trigger] cat[j].desktop_id != Some(d)) ==> {
                let g = reconciled(cat, disc, customs, hidden, prev, versions, now)[i];
                &&& g.id == cat[k].id
                &&& g.category == cat[k].category
                &&& !g.custom
            },
        (forall|k: int| 0 <= k < cat.len() ==> #[trigger] cat[k].desktop_id != Some(d)) ==> forall|i: int|
            0 <= i < reconciled(cat, disc, customs, hidden, prev, versions, now).len() && (#[trigger] reconciled(
                cat,
                disc,
                customs,
                hidden,
                prev,
                versions,
                now,
            )[i]).desktop_id == Some(d) ==> {
                let g = reconciled(cat, disc, customs, hidden, prev, versions, now)[i];
                &&& g.id == d
                &&& g.category == Category::Custom
                &&& !g.custom
            },
{
    let games = discovered_games(cat, prev, versions, now, disc);
    let all = with_customs(games, prev, now, customs);
    let r = reconciled(cat, disc, customs, hidden, prev, versions, now);
    lemma_find_by_desktop(cat, d);
    lemma_discovered_origin(cat, prev, versions, now, disc);
    lemma_customs_no_desktop(games, prev, now, customs);
    lemma_visible_subset(all, hidden, cat);
    assert forall|i: int| 0 <= i < r.len() && (#[trigger] r[i]).desktop_id == Some(d) implies exists|j: int|
        0 <= j < disc.len() && disc[j].1 == d && r[i] == discovered_game(cat, prev, versions, now, disc[j].0, disc[j].1) by {
        assert(all.contains(r[i]));
        assert(games.contains(r[i]));
        let x = choose|x: int| 0 <= x < games.len() && games[x] == r[i];
        let j = choose|j: int|
            0 <= j < disc.len() && #[trigger] games[x] == discovered_game(cat, prev, versions, now, disc[j].0, disc[j].1);
        assert(disc[j].1 == d);
    }
}

} // verus!
