use ogm::catalog::CatalogEntry;
use ogm::desktop::DesktopEntry;
use ogm::model::{Category, CustomGame, Game, SgdbInfo, DEFAULT_ICON};
use ogm::reconcile::reconcile;
use ogm::sort::{frecency_decay_tenths, sort_games, SortDir, SortKey, DAY};
use ogm::time::epoch_to_rfc3339;

fn desktop(name: &str, exec: &str) -> DesktopEntry {
    DesktopEntry {
        name: Some(name.into()),
        exec_line: Some(exec.into()),
        icon: None,
        comment: None,
        categories: vec![],
        ogm: None,
    }
}

fn catalog_entry(id: &str, desktop_id: &str) -> CatalogEntry {
    CatalogEntry {
        id: id.into(),
        desktop_id: Some(desktop_id.into()),
        name: None,
        category: Category::Port,
        github: Some("owner/repo".into()),
        sgdb_query: Some(id.into()),
        web_url: None,
        update_url: None,
        update_regex: None,
        version_file: None,
        hidden_default: false,
    }
}

#[test]
fn builds_game_from_catalog_and_desktop() {
    let cat = vec![catalog_entry("soh", "gaming-soh")];
    let disc = vec![(
        desktop("Ship of Harkinian (on gaming)", "/run/soh"),
        "gaming-soh".to_string(),
    )];
    let games = reconcile(&cat, &disc, &[], &[], &[], &[], "T0");
    assert_eq!(games.len(), 1);
    let g = &games[0];
    assert_eq!(g.id, "soh");
    assert_eq!(g.name, "Ship of Harkinian (on gaming)");
    assert_eq!(g.desktop_id.as_deref(), Some("gaming-soh"));
    assert_eq!(g.added_at, "T0");
    assert!(!g.custom);
    assert_eq!(g.github.as_ref().unwrap().repo, "owner/repo");
}

#[test]
fn catalog_name_overrides_desktop_name() {
    let mut e = catalog_entry("soh", "gaming-soh");
    e.name = Some("Ship of Harkinian".into());
    let disc = vec![(desktop("SoH (on gaming)", "/run"), "gaming-soh".to_string())];
    let games = reconcile(&[e], &disc, &[], &[], &[], &[], "T0");
    assert_eq!(games[0].name, "Ship of Harkinian");
}

#[test]
fn missing_desktop_is_skipped() {
    let cat = vec![catalog_entry("soh", "gaming-soh")];
    let games = reconcile(&cat, &[], &[], &[], &[], &[], "T0");
    assert!(games.is_empty());
}

#[test]
fn discovered_without_catalog_entry_becomes_custom_category() {
    let disc = vec![(desktop("Mystery", "/run"), "gaming-mystery".to_string())];
    let games = reconcile(&[], &disc, &[], &[], &[], &[], "T0");
    assert_eq!(games[0].id, "gaming-mystery");
    assert_eq!(games[0].category, Category::Custom);
    assert!(games[0].github.is_none());
}

#[test]
fn preserves_prev_state_fields_across_scans() {
    let cat = vec![catalog_entry("soh", "gaming-soh")];
    let disc = vec![(desktop("SoH", "/run"), "gaming-soh".to_string())];
    let first = reconcile(&cat, &disc, &[], &[], &[], &[], "T0");
    let mut prev = first.clone();
    prev[0].last_played = Some("T5".into());
    prev[0].play_count = 7;
    prev[0].installed_version = Some("9.1.2".into());
    prev[0].sgdb = Some(SgdbInfo {
        id: 42,
        release_date: Some("1998-11-23".into()),
        cover: Some("/covers/soh.jpg".into()),
        hero: None,
    });
    prev[0].github.as_mut().unwrap().latest_tag = Some("9.1.2".into());

    let second = reconcile(&cat, &disc, &[], &[], &prev, &[], "T9");
    let g = &second[0];
    assert_eq!(g.added_at, "T0");
    assert_eq!(g.last_played.as_deref(), Some("T5"));
    assert_eq!(g.play_count, 7);
    assert_eq!(g.installed_version.as_deref(), Some("9.1.2"));
    assert_eq!(g.sgdb.as_ref().unwrap().id, 42);
    assert_eq!(
        g.github.as_ref().unwrap().latest_tag.as_deref(),
        Some("9.1.2")
    );
}

#[test]
fn fresh_version_detection_overrides_prev() {
    let cat = vec![catalog_entry("soh", "gaming-soh")];
    let disc = vec![(desktop("SoH", "/run"), "gaming-soh".to_string())];
    let first = reconcile(&cat, &disc, &[], &[], &[], &[], "T0");
    let detected = vec![("soh".to_string(), "9.2.3".to_string())];
    let second = reconcile(&cat, &disc, &[], &[], &first, &detected, "T9");
    assert_eq!(second[0].installed_version.as_deref(), Some("9.2.3"));
}

#[test]
fn later_version_detection_for_the_same_id_wins() {
    let cat = vec![catalog_entry("soh", "gaming-soh")];
    let disc = vec![(desktop("SoH", "/run"), "gaming-soh".to_string())];
    let detected = vec![
        ("soh".to_string(), "1.0".to_string()),
        ("soh".to_string(), "2.0".to_string()),
    ];
    let games = reconcile(&cat, &disc, &[], &[], &[], &detected, "T0");
    assert_eq!(games[0].installed_version.as_deref(), Some("2.0"));
}

#[test]
fn hidden_ids_are_dropped() {
    let cat = vec![catalog_entry("soh", "gaming-soh")];
    let disc = vec![(desktop("SoH", "/run"), "gaming-soh".to_string())];
    let hidden = vec!["soh".to_string()];
    let games = reconcile(&cat, &disc, &[], &hidden, &[], &[], "T0");
    assert!(games.is_empty());
}

#[test]
fn hidden_default_catalog_entries_are_dropped() {
    let mut e = catalog_entry("tool", "gaming-tool");
    e.hidden_default = true;
    let disc = vec![(desktop("Tool", "/run"), "gaming-tool".to_string())];
    let games = reconcile(&[e], &disc, &[], &[], &[], &[], "T0");
    assert!(games.is_empty());
}

#[test]
fn custom_games_are_appended_and_preserved() {
    let custom = vec![CustomGame {
        id: "my-game".into(),
        name: "My Game".into(),
        exec_line: "/run/mine".into(),
        category: Category::Fangame,
        github: Some("me/mine".into()),
        sgdb_query: Some("Mine".into()),
        icon: None,
    }];
    let games = reconcile(&[], &[], &custom, &[], &[], &[], "T0");
    assert_eq!(games.len(), 1);
    assert!(games[0].custom);
    assert_eq!(games[0].icon, DEFAULT_ICON);
    assert_eq!(games[0].github.as_ref().unwrap().repo, "me/mine");

    let mut prev = games.clone();
    prev[0].last_played = Some("T3".into());
    let again = reconcile(&[], &[], &custom, &[], &prev, &[], "T9");
    assert_eq!(again[0].added_at, "T0");
    assert_eq!(again[0].last_played.as_deref(), Some("T3"));
}

#[test]
fn custom_id_collision_with_discovered_is_ignored() {
    let disc = vec![(desktop("SoH", "/run"), "gaming-soh".to_string())];
    let custom = vec![CustomGame {
        id: "gaming-soh".into(),
        name: "Impostor".into(),
        exec_line: "/nope".into(),
        category: Category::Custom,
        github: None,
        sgdb_query: None,
        icon: None,
    }];
    let games = reconcile(&[], &disc, &custom, &[], &[], &[], "T0");
    assert_eq!(games.len(), 1);
    assert_eq!(games[0].name, "SoH");
}

#[test]
fn web_tracking_carries_over_from_the_previous_state() {
    let mut e = catalog_entry("soh", "gaming-soh");
    e.update_url = Some("https://example.com/soh/dl".into());
    let disc = vec![(desktop("SoH", "/run"), "gaming-soh".to_string())];
    let first = reconcile(&[e.clone()], &disc, &[], &[], &[], &[], "T0");
    assert!(first[0].web.is_none());
    let mut prev = first.clone();
    prev[0].web = Some(ogm::model::WebInfo {
        url: None,
        update_url: "https://example.com/soh/dl".into(),
        regex: None,
        latest: Some("fp".into()),
        latest_is_version: false,
        checked_at: Some("T1".into()),
        has_update: true,
    });
    let second = reconcile(&[e], &disc, &[], &[], &prev, &[], "T9");
    assert_eq!(second[0].web, prev[0].web);
}

const NOW: i64 = 1_789_300_800; // 2026-09-13T12:00:00Z

fn days_ago(days: i64) -> String {
    epoch_to_rfc3339(NOW - days * DAY)
}

fn game(id: &str, name: &str, added: &str, release: Option<&str>) -> Game {
    Game {
        id: id.into(),
        name: name.into(),
        category: Category::Port,
        exec_line: "true".into(),
        icon: "i".into(),
        desktop_id: None,
        custom: false,
        added_at: added.into(),
        last_played: None,
        play_count: 0,
        installed_version: None,
        github: None,
        sgdb: release.map(|d| SgdbInfo {
            id: 1,
            release_date: Some(d.into()),
            cover: None,
            hero: None,
        }),
        web: None,
    }
}

fn ids(games: &[Game]) -> Vec<&str> {
    games.iter().map(|g| g.id.as_str()).collect()
}

#[test]
fn sorts_by_name_case_insensitive() {
    let mut g = vec![
        game("b", "banjo", "2026-01-01", None),
        game("a", "Azahar", "2026-01-01", None),
        game("c", "Cemu", "2026-01-01", None),
    ];
    sort_games(&mut g, SortKey::Name, SortDir::Asc, NOW);
    assert_eq!(ids(&g), ["a", "b", "c"]);
    sort_games(&mut g, SortKey::Name, SortDir::Desc, NOW);
    assert_eq!(ids(&g), ["c", "b", "a"]);
}

#[test]
fn sorts_by_date_added() {
    let mut g = vec![
        game("new", "N", "2026-09-01", None),
        game("old", "O", "2025-01-01", None),
    ];
    sort_games(&mut g, SortKey::DateAdded, SortDir::Asc, NOW);
    assert_eq!(ids(&g), ["old", "new"]);
    sort_games(&mut g, SortKey::DateAdded, SortDir::Desc, NOW);
    assert_eq!(ids(&g), ["new", "old"]);
}

#[test]
fn release_date_nulls_last_regardless_of_direction() {
    let mut g = vec![
        game("none", "NoDate", "x", None),
        game("late", "Late", "x", Some("2005-05-01")),
        game("early", "Early", "x", Some("1993-11-01")),
    ];
    sort_games(&mut g, SortKey::ReleaseDate, SortDir::Asc, NOW);
    assert_eq!(ids(&g), ["early", "late", "none"]);
    sort_games(&mut g, SortKey::ReleaseDate, SortDir::Desc, NOW);
    assert_eq!(ids(&g), ["late", "early", "none"]);
}

#[test]
fn release_date_ties_fall_back_to_name() {
    let mut g = vec![
        game("z", "Zelda", "x", Some("2000-01-01")),
        game("a", "Alto", "x", Some("2000-01-01")),
    ];
    sort_games(&mut g, SortKey::ReleaseDate, SortDir::Asc, NOW);
    assert_eq!(ids(&g), ["a", "z"]);
}

#[test]
fn name_ties_keep_their_order() {
    let mut g = vec![
        game("first", "Same", "2", None),
        game("second", "same", "1", None),
    ];
    sort_games(&mut g, SortKey::Name, SortDir::Desc, NOW);
    assert_eq!(ids(&g), ["first", "second"]);
}

#[test]
fn frecency_decay_steps_at_the_boundaries() {
    for (days, want) in [(7, 10), (8, 6), (30, 6), (31, 3), (90, 3), (91, 1)] {
        let ts = days_ago(days);
        assert_eq!(
            frecency_decay_tenths(10, Some(&ts), NOW),
            want,
            "day {days}"
        );
    }
}

#[test]
fn frecency_decay_zero_for_never_played_or_garbage() {
    assert_eq!(frecency_decay_tenths(0, Some(&days_ago(1)), NOW), 0);
    assert_eq!(frecency_decay_tenths(5, None, NOW), 0);
    assert_eq!(frecency_decay_tenths(5, Some("not-a-date"), NOW), 0);
}

fn played(id: &str, name: &str, count: u64, days: i64) -> Game {
    let mut g = game(id, name, "x", None);
    g.play_count = count;
    g.last_played = Some(days_ago(days));
    g
}

#[test]
fn most_played_asc_puts_highest_score_first_never_played_last() {
    let mut g = vec![
        game("never", "Never", "x", None),
        played("warm", "Warm", 2, 2),   // 2 * 1.0
        played("hot", "Hot", 10, 40),   // 10 * 0.3 = 3.0
        played("cold", "Cold", 1, 200), // 1 * 0.1
    ];
    sort_games(&mut g, SortKey::MostPlayed, SortDir::Asc, NOW);
    assert_eq!(ids(&g), ["hot", "warm", "cold", "never"]);
    sort_games(&mut g, SortKey::MostPlayed, SortDir::Desc, NOW);
    assert_eq!(ids(&g), ["cold", "warm", "hot", "never"]);
}

#[test]
fn most_played_ties_break_by_name() {
    let mut g = vec![played("z", "Zelda", 3, 1), played("a", "Alto", 3, 1)];
    sort_games(&mut g, SortKey::MostPlayed, SortDir::Asc, NOW);
    assert_eq!(ids(&g), ["a", "z"]);
}

#[test]
fn most_played_zero_count_with_timestamp_is_never_played() {
    let mut g = vec![played("zero", "Zero", 0, 1), played("one", "One", 1, 60)];
    sort_games(&mut g, SortKey::MostPlayed, SortDir::Asc, NOW);
    assert_eq!(ids(&g), ["one", "zero"]);
}
