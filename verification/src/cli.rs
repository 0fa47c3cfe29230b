//! What the `ogm` commands decide about desktop files and the catalog:
//! which desktop files are games and in what order, the catalog overlay
//! from `X-OGM-*` markers, category names given on the command line, the
//! version files to read, the artwork queries and the cover paths.

use vstd::prelude::*;

use crate::catalog::{entry_views, CatalogEntry, CatalogEntryV};
use crate::desktop::{parse_desktop, parsed_desktop, string_views, DesktopEntry, DesktopEntryV, OgmMeta};
use crate::glob::{glob_matches, matches_any};
use crate::model::{category_named, clone_opt, opt_str, Category, CustomGame};
use crate::paths::{join_path, path_join, Paths};
use crate::sorting::{is_stable_order, stable_order};
use crate::text::{chars_eq, chars_of, ends_with, lowercase, push_all, string_from_chars, sub_vec, to_lowercase_chars};

verus! {

/// What `format!("{:?}", s)` writes for a string: `s` quoted, with
/// quotes, backslashes and unprintable characters escaped.
pub uninterp spec fn debug_text(s: Seq<char>) -> Seq<char>;

/// `s` in `Debug` form, through std's `Debug` for `str`; the result is
/// `debug_text` of `s`.
#[verifier::external_body]
pub(crate) fn debug_quoted(s: &str) -> (r: String)
    ensures
        r@ == debug_text(s@),
{
    format!("{s:?}")
}

/// The message for a category name that names no category.
pub open spec fn unknown_category_text(s: Seq<char>) -> Seq<char> {
    "unknown category "@ + debug_text(s)
        + " (port, decomp, recomp, fangame, wine, arcade, emulator, tool, custom)"@
}

/// A category given on the command line, in any case.
pub fn parse_category(s: &str) -> (r: Result<Category, String>)
    ensures
        match category_named(lowercase(s@)) {
            Some(c) => r == Ok::<Category, String>(c),
            None => r is Err && r->Err_0@ == unknown_category_text(s@),
        },
{
    let lower = to_lowercase_chars(&chars_of(s));
    let name = string_from_chars(&lower);
    match Category::from_name(name.as_str()) {
        Some(c) => Ok(c),
        None => {
            let mut m = chars_of("unknown category ");
            push_all(&mut m, &chars_of(debug_quoted(s).as_str()));
            push_all(&mut m, &chars_of(" (port, decomp, recomp, fangame, wine, arcade, emulator, tool, custom)"));
            Err(string_from_chars(&m))
        },
    }
}

/// A desktop file taken into the game list.
#[derive(Clone, Debug)]
pub struct DiscoveredEntry {
    pub entry: DesktopEntry,
    pub stem: String,
    /// Selected via `X-OGM-Managed=true` (vs the legacy desktop globs).
    pub via_marker: bool,
}

/// The values a `DiscoveredEntry` holds.
pub ghost struct DiscoveredEntryV {
    pub entry: DesktopEntryV,
    pub stem: Seq<char>,
    pub via_marker: bool,
}

impl View for DiscoveredEntry {
    type V = DiscoveredEntryV;

    open spec fn view(&self) -> DiscoveredEntryV {
        DiscoveredEntryV { entry: self.entry@, stem: self.stem@, via_marker: self.via_marker }
    }
}

/// The values held by a sequence of discovered entries.
pub open spec fn discovered_entry_views(s: Seq<DiscoveredEntry>) -> Seq<DiscoveredEntryV> {
    s.map_values(|d: DiscoveredEntry| d@)
}

/// The stems of a sequence of discovered entries.
pub open spec fn entry_stems(s: Seq<DiscoveredEntry>) -> Seq<Seq<char>> {
    s.map_values(|d: DiscoveredEntry| d.stem@)
}

/// The stem of a `.desktop` file name (`x.desktop` gives `x`; a bare
/// `.desktop` is no desktop file).
pub open spec fn desktop_stem_of(name: Seq<char>) -> Option<Seq<char>> {
    if name.len() > 8 && ends_with(name, ".desktop"@) {
        Some(name.subrange(0, name.len() - 8))
    } else {
        None
    }
}

/// The stem of a directory entry when it is a `.desktop` file.
pub fn desktop_stem(file_name: &str) -> (r: Option<String>)
    ensures
        opt_str(r) == desktop_stem_of(file_name@),
{
    let n = chars_of(file_name);
    let len = n.len();
    proof {
        reveal_strlit(".desktop");
    }
    if len <= 8 {
        return None;
    }
    let suffix = sub_vec(&n, len - 8, len);
    let ext = chars_of(".desktop");
    if chars_eq(&suffix, &ext) {
        Some(string_from_chars(&sub_vec(&n, 0, len - 8)))
    } else {
        None
    }
}

/// Whether the metadata opts the entry in (`X-OGM-Managed=true`).
pub open spec fn marked(e: DesktopEntryV) -> bool {
    e.ogm matches Some(m) && m.managed == Some(true)
}

/// Whether the metadata opts the entry out (`X-OGM-Managed` set to
/// anything but `true`).
pub open spec fn opted_out(e: DesktopEntryV) -> bool {
    e.ogm matches Some(m) && m.managed == Some(false)
}

/// Whether a desktop file with this stem and content is a game: marked
/// with `X-OGM-Managed=true`, or matched by a glob and not opted out.
pub open spec fn is_game_entry(stem: Seq<char>, content: Seq<char>, globs: Seq<Seq<char>>) -> bool {
    let e = parsed_desktop(content);
    marked(e) || (!opted_out(e) && exists|i: int| 0 <= i < globs.len() && glob_matches(stem, #[trigger] globs[i]))
}

/// The desktop file `stem` with `content`, when it is a game (see
/// `is_game_entry`).
pub fn classify_entry(stem: &str, content: &str, globs: &[String]) -> (r: Option<DiscoveredEntry>)
    ensures
        r is Some <==> is_game_entry(stem@, content@, string_views(globs@)),
        r matches Some(d) ==> d.entry@ == parsed_desktop(content@) && d.stem@ == stem@ && d.via_marker
            == marked(parsed_desktop(content@)),
{
    let via_glob = matches_any(stem, globs);
    let parsed = parse_desktop(content);
    let (via_marker, opt_out) = match &parsed.ogm {
        Some(m) => match m.managed {
            Some(true) => (true, false),
            Some(false) => (false, true),
            None => (false, false),
        },
        None => (false, false),
    };
    proof {
        let gv = string_views(globs@);
        if via_glob {
            let i = choose|i: int| 0 <= i < globs@.len() && glob_matches(stem@, #[trigger] globs@[i]@);
            assert(glob_matches(stem@, gv[i]));
        }
        if exists|i: int| 0 <= i < gv.len() && glob_matches(stem@, #[trigger] gv[i]) {
            let i = choose|i: int| 0 <= i < gv.len() && glob_matches(stem@, #[trigger] gv[i]);
            assert(glob_matches(stem@, globs@[i]@));
        }
    }
    if via_marker || (via_glob && !opt_out) {
        Some(DiscoveredEntry { entry: parsed, stem: stem.to_owned(), via_marker })
    } else {
        None
    }
}

/// The discovered entries sorted by stem (stably), the order in which the
/// game list is built.
pub fn sort_discovered(entries: Vec<DiscoveredEntry>) -> (r: Vec<DiscoveredEntry>)
    ensures
        exists|p: Seq<int>|
            #[trigger] is_stable_order(
                entry_stems(entries@),
                p,
            ) && r@.len() == entries@.len() && forall|i: int| 0 <= i < r@.len() ==> #[trigger] r@[i]@ == entries@[p[i]]@,
{
    let ghost stems = entry_stems(entries@);
    let mut keys: Vec<Vec<char>> = Vec::new();
    let mut i: usize = 0;
    while i < entries.len()
        invariant
            i <= entries@.len(),
            stems == entry_stems(entries@),
            keys@.len() == i,
            forall|k: int| 0 <= k < i ==> (#[trigger] keys@[k])@ == stems[k],
        decreases entries.len() - i,
    {
        keys.push(chars_of(entries[i].stem.as_str()));
        i = i + 1;
    }
    assert(crate::text::char_views(keys@) =~= stems);
    let order = stable_order(&keys);
    let ghost p = order@.map_values(|x: usize| x as int);
    let mut out: Vec<DiscoveredEntry> = Vec::new();
    let mut k: usize = 0;
    while k < order.len()
        invariant
            k <= order@.len() == entries@.len(),
            is_stable_order(stems, p),
            p == order@.map_values(|x: usize| x as int),
            out@.len() == k,
            forall|a: int| 0 <= a < k ==> (#[trigger] out@[a])@ == entries@[p[a]]@,
        decreases order.len() - k,
    {
        assert(p[k as int] == order@[k as int] as int);
        let e = &entries[order[k]];
        out.push(DiscoveredEntry { entry: e.entry.duplicate(), stem: e.stem.clone(), via_marker: e.via_marker });
        k = k + 1;
    }
    out
}

/// The first catalog entry with desktop id `d`.
pub open spec fn first_by_desktop(cat: Seq<CatalogEntryV>, d: Seq<char>) -> Option<CatalogEntryV>
    decreases cat.len(),
{
    if cat.len() == 0 {
        None
    } else if cat[0].desktop_id == Some(d) {
        Some(cat[0])
    } else {
        first_by_desktop(cat.drop_first(), d)
    }
}

/// `a`, or else `b`.
pub open spec fn or_else<T>(a: Option<T>, b: Option<T>) -> Option<T> {
    match a {
        Some(x) => Some(x),
        None => b,
    }
}

/// The catalog override made from a marked desktop file: what the
/// markers set wins, the rest (and always the name, the version file and
/// whether it is hidden by default) carries over from the catalog entry
/// with the same desktop id.
pub open spec fn marker_entry(stem: Seq<char>, m: crate::desktop::OgmMetaV, base: Option<CatalogEntryV>) -> CatalogEntryV {
    CatalogEntryV {
        id: match base {
            Some(b) => b.id,
            None => stem,
        },
        desktop_id: Some(stem),
        name: match base {
            Some(b) => b.name,
            None => None,
        },
        category: match m.category {
            Some(c) => c,
            None => match base {
                Some(b) => b.category,
                None => Category::Custom,
            },
        },
        github: or_else(m.github, match base { Some(b) => b.github, None => None }),
        sgdb_query: or_else(m.sgdb_query, match base { Some(b) => b.sgdb_query, None => None }),
        web_url: or_else(m.web_url, match base { Some(b) => b.web_url, None => None }),
        update_url: or_else(m.update_url, match base { Some(b) => b.update_url, None => None }),
        update_regex: or_else(m.update_regex, match base { Some(b) => b.update_regex, None => None }),
        version_file: match base {
            Some(b) => b.version_file,
            None => None,
        },
        hidden_default: match base {
            Some(b) => b.hidden_default,
            None => false,
        },
    }
}

/// The overlay entries of the marked desktop files, in order.
pub open spec fn marker_overlay(ds: Seq<DiscoveredEntryV>, cat: Seq<CatalogEntryV>) -> Seq<CatalogEntryV>
    decreases ds.len(),
{
    if ds.len() == 0 {
        Seq::empty()
    } else {
        let rest = marker_overlay(ds.drop_last(), cat);
        let d = ds.last();
        match d.entry.ogm {
            Some(m) => if m.managed == Some(true) {
                rest.push(marker_entry(d.stem, m, first_by_desktop(cat, d.stem)))
            } else {
                rest
            },
            None => rest,
        }
    }
}

fn first_catalog(cat: &[CatalogEntry], d: &String) -> (r: Option<usize>)
    ensures
        match r {
            Some(i) => i < cat@.len() && first_by_desktop(entry_views(cat@), d@) == Some(cat@[i as int]@),
            None => first_by_desktop(entry_views(cat@), d@) is None,
        },
{
    let ghost v = entry_views(cat@);
    let mut i: usize = 0;
    assert(v.subrange(0, v.len() as int) =~= v);
    while i < cat.len()
        invariant
            i <= cat@.len(),
            v == entry_views(cat@),
            first_by_desktop(v, d@) == first_by_desktop(v.subrange(i as int, v.len() as int), d@),
        decreases cat.len() - i,
    {
        let ghost tail = v.subrange(i as int, v.len() as int);
        assert(tail[0] == cat@[i as int]@);
        assert(tail.drop_first() =~= v.subrange(i + 1, v.len() as int));
        let hit = match &cat[i].desktop_id {
            Some(x) => {
                let a = chars_of(x.as_str());
                let b = chars_of(d.as_str());
                chars_eq(&a, &b)
            },
            None => false,
        };
        if hit {
            return Some(i);
        }
        i = i + 1;
    }
    None
}

fn marker_entry_exec(stem: &String, m: &OgmMeta, base: Option<&CatalogEntry>) -> (r: CatalogEntry)
    ensures
        r@ == marker_entry(
            stem@,
            m@,
            match base {
                Some(b) => Some(b@),
                None => None,
            },
        ),
{
    let pick = |own: &Option<String>, from: Option<&Option<String>>| -> (r: Option<String>)
        ensures
            opt_str(r) == or_else(
                opt_str(*own),
                match from {
                    Some(f) => opt_str(*f),
                    None => None,
                },
            ),
        {
            match own {
                Some(x) => Some(x.clone()),
                None => match from {
                    Some(f) => clone_opt(f),
                    None => None,
                },
            }
        };
    CatalogEntry {
        id: match base {
            Some(b) => b.id.clone(),
            None => stem.clone(),
        },
        desktop_id: Some(stem.clone()),
        name: match base {
            Some(b) => clone_opt(&b.name),
            None => None,
        },
        category: match m.category {
            Some(c) => c,
            None => match base {
                Some(b) => b.category,
                None => Category::Custom,
            },
        },
        github: pick(&m.github, match base { Some(b) => Some(&b.github), None => None }),
        sgdb_query: pick(&m.sgdb_query, match base { Some(b) => Some(&b.sgdb_query), None => None }),
        web_url: pick(&m.web_url, match base { Some(b) => Some(&b.web_url), None => None }),
        update_url: pick(&m.update_url, match base { Some(b) => Some(&b.update_url), None => None }),
        update_regex: pick(&m.update_regex, match base { Some(b) => Some(&b.update_regex), None => None }),
        version_file: match base {
            Some(b) => clone_opt(&b.version_file),
            None => None,
        },
        hidden_default: match base {
            Some(b) => b.hidden_default,
            None => false,
        },
    }
}

/// `X-OGM-*` metadata becomes the topmost catalog-like override: it wins
/// over catalog.d fragments and the bundled catalog, but fields it does
/// not set carry over from the catalog entry with the same desktop id
/// (see `marker_entry`). Only entries marked `X-OGM-Managed=true` make
/// one.
pub fn synthesize_marker_overlay(discovered: &[DiscoveredEntry], catalog: &[CatalogEntry]) -> (r: Vec<CatalogEntry>)
    ensures
        entry_views(r@) == marker_overlay(discovered_entry_views(discovered@), entry_views(catalog@)),
{
    let ghost dv = discovered_entry_views(discovered@);
    let ghost cv = entry_views(catalog@);
    let mut out: Vec<CatalogEntry> = Vec::new();
    let mut i: usize = 0;
    while i < discovered.len()
        invariant
            i <= discovered@.len(),
            dv == discovered_entry_views(discovered@),
            cv == entry_views(catalog@),
            entry_views(out@) == marker_overlay(dv.subrange(0, i as int), cv),
        decreases discovered.len() - i,
    {
        let ghost pre = dv.subrange(0, i as int + 1);
        proof {
            assert(pre.drop_last() =~= dv.subrange(0, i as int));
            assert(pre.last() == discovered@[i as int]@);
        }
        let d = &discovered[i];
        match &d.entry.ogm {
            Some(m) => {
                if m.managed == Some(true) {
                    let base = match first_catalog(catalog, &d.stem) {
                        Some(k) => Some(&catalog[k]),
                        None => None,
                    };
                    let e = marker_entry_exec(&d.stem, m, base);
                    let ghost before = out@;
                    out.push(e);
                    assert(entry_views(out@) =~= entry_views(before).push(e@));
                }
            },
            None => {},
        }
        i = i + 1;
    }
    assert(dv.subrange(0, dv.len() as int) =~= dv);
    out
}

/// The (catalog id, version file) pairs of the entries that name a
/// version file, in catalog order.
pub open spec fn version_file_pairs(cat: Seq<CatalogEntryV>) -> Seq<(Seq<char>, Seq<char>)>
    decreases cat.len(),
{
    if cat.len() == 0 {
        Seq::empty()
    } else {
        match cat.last().version_file {
            Some(f) => version_file_pairs(cat.drop_last()).push((cat.last().id, f)),
            None => version_file_pairs(cat.drop_last()),
        }
    }
}

/// The version files to read for installed-version detection (see
/// `version_file_pairs`).
pub fn version_file_targets(catalog: &[CatalogEntry]) -> (r: Vec<(String, String)>)
    ensures
        crate::reconcile::pair_views(r@) == version_file_pairs(entry_views(catalog@)),
{
    let ghost cv = entry_views(catalog@);
    let mut out: Vec<(String, String)> = Vec::new();
    let mut i: usize = 0;
    while i < catalog.len()
        invariant
            i <= catalog@.len(),
            cv == entry_views(catalog@),
            crate::reconcile::pair_views(out@) == version_file_pairs(cv.subrange(0, i as int)),
        decreases catalog.len() - i,
    {
        let ghost pre = cv.subrange(0, i as int + 1);
        proof {
            assert(pre.drop_last() =~= cv.subrange(0, i as int));
            assert(pre.last() == catalog@[i as int]@);
        }
        match &catalog[i].version_file {
            Some(f) => {
                let ghost before = out@;
                let pair = (catalog[i].id.clone(), f.clone());
                out.push(pair);
                assert(crate::reconcile::pair_views(out@) =~= crate::reconcile::pair_views(before).push(
                    (pair.0@, pair.1@),
                ));
            },
            None => {},
        }
        i = i + 1;
    }
    assert(cv.subrange(0, cv.len() as int) =~= cv);
    out
}

/// The cover image path of a game: `{id}.jpg` in the covers directory.
pub fn cover_path(paths: &Paths, id: &str) -> (r: String)
    ensures
        r@ == path_join(path_join(paths.cache_dir@, "covers"@), id@ + ".jpg"@),
{
    let dir = paths.covers_dir();
    let mut f = chars_of(id);
    push_all(&mut f, &chars_of(".jpg"));
    let file = string_from_chars(&f);
    join_path(dir.as_str(), file.as_str())
}

/// The SteamGridDB queries as (game id, query) insertions, in order: for
/// each catalog entry with a query, under its desktop id (when it has
/// one) and then under its id; then for each custom game with a query.
/// A later insertion for the same id wins.
pub open spec fn query_pairs(cat: Seq<CatalogEntryV>, custom: Seq<crate::model::CustomGameV>) -> Seq<(Seq<char>, Seq<char>)>
    decreases cat.len() + custom.len(),
{
    if custom.len() > 0 {
        let rest = query_pairs(cat, custom.drop_last());
        match custom.last().sgdb_query {
            Some(q) => rest.push((custom.last().id, q)),
            None => rest,
        }
    } else if cat.len() > 0 {
        let rest = query_pairs(cat.drop_last(), custom);
        let e = cat.last();
        match e.sgdb_query {
            Some(q) => match e.desktop_id {
                Some(d) => rest.push((d, q)).push((e.id, q)),
                None => rest.push((e.id, q)),
            },
            None => rest,
        }
    } else {
        Seq::empty()
    }
}

/// The query insertions for SteamGridDB artwork (see `query_pairs`); the
/// query of a game is the last one inserted under its id.
pub fn sgdb_queries(catalog: &[CatalogEntry], custom: &[CustomGame]) -> (r: Vec<(String, String)>)
    ensures
        crate::reconcile::pair_views(r@) == query_pairs(entry_views(catalog@), crate::reconcile::custom_views(custom@)),
{
    let ghost cv = entry_views(catalog@);
    let ghost uv = crate::reconcile::custom_views(custom@);
    let mut out: Vec<(String, String)> = Vec::new();
    let mut i: usize = 0;
    assert(uv.subrange(0, 0) =~= Seq::<crate::model::CustomGameV>::empty());
    while i < catalog.len()
        invariant
            i <= catalog@.len(),
            cv == entry_views(catalog@),
            crate::reconcile::pair_views(out@) == query_pairs(cv.subrange(0, i as int), uv.subrange(0, 0)),
        decreases catalog.len() - i,
    {
        let ghost pre = cv.subrange(0, i as int + 1);
        proof {
            assert(pre.drop_last() =~= cv.subrange(0, i as int));
            assert(pre.last() == catalog@[i as int]@);
        }
        let e = &catalog[i];
        match &e.sgdb_query {
            Some(q) => {
                let ghost before = out@;
                match &e.desktop_id {
                    Some(d) => {
                        out.push((d.clone(), q.clone()));
                    },
                    None => {},
                }
                out.push((e.id.clone(), q.clone()));
                proof {
                    match &e.desktop_id {
                        Some(d) => {
                            assert(crate::reconcile::pair_views(out@) =~= crate::reconcile::pair_views(before).push(
                                (d@, q@),
                            ).push((e.id@, q@)));
                        },
                        None => {
                            assert(crate::reconcile::pair_views(out@) =~= crate::reconcile::pair_views(before).push(
                                (e.id@, q@),
                            ));
                        },
                    }
                }
            },
            None => {},
        }
        i = i + 1;
    }
    assert(cv.subrange(0, cv.len() as int) =~= cv);
    let mut k: usize = 0;
    while k < custom.len()
        invariant
            k <= custom@.len(),
            cv == entry_views(catalog@),
            uv == crate::reconcile::custom_views(custom@),
            crate::reconcile::pair_views(out@) == query_pairs(cv, uv.subrange(0, k as int)),
        decreases custom.len() - k,
    {
        let ghost pre = uv.subrange(0, k as int + 1);
        proof {
            assert(pre.drop_last() =~= uv.subrange(0, k as int));
            assert(pre.last() == custom@[k as int]@);
        }
        match &custom[k].sgdb_query {
            Some(q) => {
                let ghost before = out@;
                out.push((custom[k].id.clone(), q.clone()));
                assert(crate::reconcile::pair_views(out@) =~= crate::reconcile::pair_views(before).push(
                    (custom@[k as int].id@, q@),
                ));
            },
            None => {},
        }
        k = k + 1;
    }
    assert(uv.subrange(0, uv.len() as int) =~= uv);
    out
}

/// The value of the last pair with key `id`.
pub fn last_value_for(pairs: &[(String, String)], id: &str) -> (r: Option<String>)
    ensures
        opt_str(r) == crate::reconcile::find_version(crate::reconcile::pair_views(pairs@), id@),
{
    let ghost pv = crate::reconcile::pair_views(pairs@);
    let key = chars_of(id);
    let mut i = pairs.len();
    assert(pv.take(i as int) =~= pv);
    while i > 0
        invariant
            i <= pairs@.len(),
            pv == crate::reconcile::pair_views(pairs@),
            key@ == id@,
            crate::reconcile::find_version(pv, id@) == crate::reconcile::find_version(pv.take(i as int), id@),
        decreases i,
    {
        assert(pv.take(i as int).drop_last() =~= pv.take(i - 1));
        assert(pv.take(i as int).last() == (pairs@[i - 1].0@, pairs@[i - 1].1@));
        let k = chars_of(pairs[i - 1].0.as_str());
        if chars_eq(&k, &key) {
            return Some(pairs[i - 1].1.clone());
        }
        i = i - 1;
    }
    None
}

} // verus!
