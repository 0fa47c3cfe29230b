use ogm::catalog::CatalogEntry;
use ogm::cli::{
    classify_entry, cover_path, desktop_stem, last_value_for, parse_category, sgdb_queries,
    sort_discovered, synthesize_marker_overlay, version_file_targets, DiscoveredEntry,
};
use ogm::commands::{
    add_custom_game, apply_artwork, apply_release_check, find_game, needs_artwork,
    needs_github_check, record_launch, remove_game,
};
use ogm::config::{default_desktop_globs, Config};
use ogm::desktop::parse_desktop;
use ogm::fragments::{collect_fragments, toml_files};
use ogm::ids::{slugify, unique_id};
use ogm::model::{Category, CustomGame, Game, GithubInfo, WebInfo};
use ogm::net::{NetError, Release, ReleaseOutcome};
use ogm::paths::{join_path, Paths};
use ogm::state::{temp_file_name, StoreError};
use ogm::user_games::UserGames;
use ogm::version_file::installed_version_of;

#[test]
fn from_root_layout() {
    let p = Paths::from_root("/tmp/x");
    assert_eq!(p.config_file(), "/tmp/x/config/config.toml");
    assert_eq!(p.games_file(), "/tmp/x/config/games.json");
    assert_eq!(p.state_file(), "/tmp/x/data/state.json");
    assert_eq!(p.covers_dir(), "/tmp/x/cache/covers");
    assert_eq!(p.catalog_d_dir(), "/tmp/x/config/catalog.d");
    assert_eq!(p.applications_dir, "/tmp/x/applications");
}

#[test]
fn join_follows_path_rules() {
    assert_eq!(join_path("/a/", "b"), "/a/b");
    assert_eq!(join_path("", "b"), "b");
    assert_eq!(join_path("/a", "/b"), "/b");
    let p = Paths::from_bases("/home/u/.config", "/home/u/.local/share", "/home/u/.cache");
    assert_eq!(p.config_dir, "/home/u/.config/ogm");
    assert_eq!(p.data_dir, "/home/u/.local/share/ogm");
    assert_eq!(p.cache_dir, "/home/u/.cache/ogm");
    assert_eq!(p.applications_dir, "/home/u/.local/share/applications");
}

#[test]
fn default_config_values() {
    let paths = Paths::from_root("/tmp/x");
    let config = Config::default().with_default_applications(&paths);
    assert_eq!(config.sgdb_api_key, "");
    assert_eq!(config.refresh_interval_hours, 3);
    assert!(config.github_token.is_none());
    assert!(config.desktop_globs.contains(&"gaming-*".to_string()));
    assert_eq!(config.applications_dirs, vec![paths.applications_dir.clone()]);
    assert_eq!(config.all_catalog_dirs(&paths), vec![paths.catalog_d_dir()]);
    assert_eq!(default_desktop_globs().len(), 10);
}

#[test]
fn configured_dirs_are_kept_and_catalog_dirs_come_after_default() {
    let paths = Paths::from_root("/tmp/x");
    let mut config = Config::default();
    config.applications_dirs = vec!["/opt/apps".into()];
    config.catalog_dirs = vec!["/opt/fragments".into()];
    let config = config.with_default_applications(&paths);
    assert_eq!(config.applications_dirs, vec!["/opt/apps".to_string()]);
    assert_eq!(
        config.all_catalog_dirs(&paths),
        vec![paths.catalog_d_dir(), "/opt/fragments".to_string()]
    );
}

#[test]
fn hide_is_idempotent_and_show_removes() {
    let mut u = UserGames::default();
    u.hide_id("a");
    u.hide_id("a");
    assert_eq!(u.hidden, vec!["a"]);
    u.show("a");
    u.show("a");
    assert!(u.hidden.is_empty());
}

#[test]
fn hidden_set_drops_repeats() {
    let mut u = UserGames::default();
    u.hidden = vec!["a".into(), "b".into(), "a".into()];
    assert_eq!(u.hidden_set(), vec!["a", "b"]);
    u.show("a");
    assert_eq!(u.hidden, vec!["b"]);
}

fn fragment_entry(id: &str) -> CatalogEntry {
    CatalogEntry {
        id: id.into(),
        desktop_id: None,
        name: None,
        category: Category::Port,
        github: None,
        sgdb_query: None,
        web_url: None,
        update_url: None,
        update_regex: None,
        version_file: None,
        hidden_default: false,
    }
}

#[test]
fn fragment_files_are_toml_in_name_order() {
    let names = vec![
        "20-second.toml".to_string(),
        "10-first.toml".to_string(),
        "ignored.txt".to_string(),
        ".toml".to_string(),
    ];
    assert_eq!(toml_files(&names), vec!["10-first.toml", "20-second.toml"]);
}

#[test]
fn fragment_results_are_collected_with_warnings() {
    let results = vec![
        ("/c/good.toml".to_string(), Some(vec![fragment_entry("a"), fragment_entry("b")])),
        ("/c/bad.toml".to_string(), None),
    ];
    let out = collect_fragments(&results);
    assert_eq!(out.entries.len(), 2);
    assert_eq!(out.files, vec![("/c/good.toml".to_string(), 2)]);
    assert_eq!(
        out.warnings,
        vec!["catalog fragment /c/bad.toml failed to parse"]
    );
}

#[test]
fn finds_first_version_like_token() {
    assert_eq!(
        installed_version_of("release v9.2.3 build\n").as_deref(),
        Some("9.2.3")
    );
}

#[test]
fn falls_back_to_trimmed_content() {
    assert_eq!(
        installed_version_of("  nightly-2026-09-01  \n").as_deref(),
        Some("nightly-2026-09-01")
    );
}

#[test]
fn blank_version_file_is_none() {
    assert!(installed_version_of("   \n").is_none());
    assert_eq!(installed_version_of("V1.2V x").as_deref(), Some("1.2"));
    assert_eq!(installed_version_of("1. 2.x").as_deref(), Some("1. 2.x"));
}

#[test]
fn store_texts() {
    assert_eq!(temp_file_name(Some("state.json"), 42), ".state.json.42.tmp");
    assert_eq!(temp_file_name(None, 7), ".state.7.tmp");
    assert_eq!(
        StoreError::Parse { path: "/x".into(), message: "bad".into() }.message(),
        "failed to parse /x: bad"
    );
    assert_eq!(
        StoreError::Io { path: "/y".into(), message: "denied".into() }.message(),
        "io error on /y: denied"
    );
}

#[test]
fn slugify_basic() {
    assert_eq!(slugify("My Cool Game!"), "my-cool-game");
    assert_eq!(slugify("Sonic 3 A.I.R."), "sonic-3-a-i-r");
    assert_eq!(slugify("  spaced  "), "spaced");
}

#[test]
fn unique_id_suffixes_on_collision() {
    let taken = vec!["game".to_string(), "game-2".to_string()];
    assert_eq!(unique_id("game", &taken), "game-3");
    assert_eq!(unique_id("fresh", &taken), "fresh");
}

#[test]
fn parses_categories_from_cli_strings() {
    assert_eq!(parse_category("wine").unwrap(), Category::Wine);
    assert!(parse_category("nope").is_err());
}

#[test]
fn category_names_are_case_insensitive_on_the_command_line() {
    assert_eq!(parse_category("WINE"), Ok(Category::Wine));
    assert_eq!(
        parse_category("nope"),
        Err("unknown category \"nope\" (port, decomp, recomp, fangame, wine, arcade, emulator, tool, custom)".to_string())
    );
}

fn marked(stem: &str, content: &str) -> DiscoveredEntry {
    DiscoveredEntry {
        entry: parse_desktop(content),
        stem: stem.into(),
        via_marker: true,
    }
}

fn catalog_fixture() -> Vec<CatalogEntry> {
    vec![CatalogEntry {
        id: "soh".into(),
        desktop_id: Some("gaming-soh".into()),
        name: Some("Ship of Harkinian".into()),
        category: Category::Port,
        github: Some("HarbourMasters/Shipwright".into()),
        sgdb_query: Some("Ship of Harkinian".into()),
        web_url: None,
        update_url: None,
        update_regex: None,
        version_file: None,
        hidden_default: false,
    }]
}

#[test]
fn marker_category_overrides_catalog_category() {
    let d = marked(
        "gaming-soh",
        "[Desktop Entry]\nName=SoH\nX-OGM-Managed=true\nX-OGM-Category=wine\n",
    );
    let overlay = synthesize_marker_overlay(&[d], &catalog_fixture());
    assert_eq!(overlay.len(), 1);
    assert_eq!(overlay[0].id, "soh", "catalog id carries over");
    assert_eq!(overlay[0].category, Category::Wine);
    assert_eq!(
        overlay[0].github.as_deref(),
        Some("HarbourMasters/Shipwright"),
        "github falls through from catalog"
    );
    assert_eq!(overlay[0].name.as_deref(), Some("Ship of Harkinian"));
}

#[test]
fn marker_github_and_sgdb_override_catalog() {
    let d = marked(
        "gaming-soh",
        "[Desktop Entry]\nName=SoH\nX-OGM-Managed=true\nX-OGM-GitHub=fork/soh\nX-OGM-SGDBQuery=SoH\n",
    );
    let overlay = synthesize_marker_overlay(&[d], &catalog_fixture());
    assert_eq!(overlay[0].github.as_deref(), Some("fork/soh"));
    assert_eq!(overlay[0].sgdb_query.as_deref(), Some("SoH"));
    assert_eq!(overlay[0].category, Category::Port, "catalog category kept");
}

#[test]
fn marker_without_category_or_catalog_defaults_custom() {
    let d = marked("zz-new", "[Desktop Entry]\nName=New\nX-OGM-Managed=true\n");
    let overlay = synthesize_marker_overlay(&[d], &catalog_fixture());
    assert_eq!(overlay[0].id, "zz-new");
    assert_eq!(overlay[0].category, Category::Custom);
    assert!(overlay[0].github.is_none());
}

#[test]
fn unmarked_entries_produce_no_overlay() {
    let content = "[Desktop Entry]\nName=X\nX-OGM-Managed=yes\n";
    let d = DiscoveredEntry {
        entry: parse_desktop(content),
        stem: "gaming-soh".into(),
        via_marker: false,
    };
    assert!(synthesize_marker_overlay(&[d], &catalog_fixture()).is_empty());
}

#[test]
fn desktop_files_are_classified_by_marker_and_glob() {
    let globs = default_desktop_globs();
    assert_eq!(desktop_stem("gaming-soh.desktop").as_deref(), Some("gaming-soh"));
    assert!(desktop_stem(".desktop").is_none());
    assert!(desktop_stem("notes.txt").is_none());
    let by_glob = classify_entry("gaming-soh", "[Desktop Entry]\nName=SoH\n", &globs).unwrap();
    assert!(!by_glob.via_marker);
    let by_marker =
        classify_entry("other", "[Desktop Entry]\nName=O\nX-OGM-Managed=true\n", &globs).unwrap();
    assert!(by_marker.via_marker);
    assert!(classify_entry("other", "[Desktop Entry]\nName=O\n", &globs).is_none());
    assert!(classify_entry(
        "gaming-soh",
        "[Desktop Entry]\nName=SoH\nX-OGM-Managed=false\n",
        &globs
    )
    .is_none());
}

#[test]
fn discovered_entries_sort_by_stem() {
    let globs = default_desktop_globs();
    let d = vec![
        classify_entry("pc-b", "[Desktop Entry]\nName=B\n", &globs).unwrap(),
        classify_entry("gaming-a", "[Desktop Entry]\nName=A\n", &globs).unwrap(),
    ];
    let sorted = sort_discovered(d);
    let stems: Vec<&str> = sorted.iter().map(|d| d.stem.as_str()).collect();
    assert_eq!(stems, ["gaming-a", "pc-b"]);
}

#[test]
fn version_files_and_queries_and_covers() {
    let mut cat = catalog_fixture();
    cat[0].version_file = Some("/opt/soh/version".into());
    assert_eq!(
        version_file_targets(&cat),
        vec![("soh".to_string(), "/opt/soh/version".to_string())]
    );
    let custom = vec![CustomGame {
        id: "soh".into(),
        name: "Mine".into(),
        exec_line: "/run".into(),
        category: Category::Custom,
        github: None,
        sgdb_query: Some("My Query".into()),
        icon: None,
    }];
    let q = sgdb_queries(&cat, &custom);
    assert_eq!(
        last_value_for(&q, "gaming-soh").as_deref(),
        Some("Ship of Harkinian")
    );
    assert_eq!(last_value_for(&q, "soh").as_deref(), Some("My Query"));
    assert!(last_value_for(&q, "nope").is_none());
    let paths = Paths::from_root("/tmp/x");
    assert_eq!(cover_path(&paths, "soh"), "/tmp/x/cache/covers/soh.jpg");
}

fn state_game(id: &str) -> Game {
    Game {
        id: id.into(),
        name: id.into(),
        category: Category::Port,
        exec_line: format!("/run/{id}"),
        icon: "i".into(),
        desktop_id: None,
        custom: false,
        added_at: "T0".into(),
        last_played: None,
        play_count: 0,
        installed_version: Some("1.0".into()),
        github: Some(GithubInfo::unchecked("o/r".into())),
        sgdb: None,
        web: Some(WebInfo {
            url: None,
            update_url: "https://example.com".into(),
            regex: None,
            latest: Some("x".into()),
            latest_is_version: false,
            checked_at: None,
            has_update: true,
        }),
    }
}

#[test]
fn adding_custom_games() {
    let mut user = UserGames::default();
    let games = vec![state_game("my-game")];
    let id = add_custom_game(
        &mut user,
        &games,
        &catalog_fixture(),
        "My Game",
        "/bin/true",
        Some("Wine"),
        None,
        Some("q"),
        None,
    )
    .unwrap();
    assert_eq!(id, "my-game-2");
    assert_eq!(user.custom.len(), 1);
    assert_eq!(user.custom[0].category, Category::Wine);
    assert_eq!(user.custom[0].sgdb_query.as_deref(), Some("q"));
    assert!(add_custom_game(
        &mut user,
        &games,
        &[],
        "!!!",
        "/bin/true",
        None,
        None,
        None,
        None
    )
    .is_err());
    assert!(add_custom_game(
        &mut user,
        &games,
        &[],
        "Other",
        "/bin/true",
        Some("nope"),
        None,
        None,
        None
    )
    .is_err());
    assert_eq!(user.custom.len(), 1);
}

#[test]
fn removing_deletes_custom_or_hides() {
    let mut user = UserGames::default();
    user.custom.push(CustomGame {
        id: "mine".into(),
        name: "Mine".into(),
        exec_line: "/run".into(),
        category: Category::Custom,
        github: None,
        sgdb_query: None,
        icon: None,
    });
    remove_game(&mut user, "mine");
    assert!(user.custom.is_empty());
    assert!(user.hidden.is_empty());
    remove_game(&mut user, "soh");
    assert_eq!(user.hidden, vec!["soh"]);
}

#[test]
fn launching_records_play_and_clears_web_badge() {
    let mut games = vec![state_game("a"), state_game("b")];
    let i = find_game(&games, "b").unwrap();
    assert_eq!(i, 1);
    let exec = record_launch(&mut games, i, "T7");
    assert_eq!(exec, "/run/b");
    assert_eq!(games[1].play_count, 1);
    assert_eq!(games[1].last_played.as_deref(), Some("T7"));
    assert!(!games[1].web.as_ref().unwrap().has_update);
    assert!(games[0].web.as_ref().unwrap().has_update);
    assert!(find_game(&games, "zzz").is_none());
}

#[test]
fn github_checks() {
    let now = 1_789_300_800;
    assert!(needs_github_check(None, now, 3, false));
    assert!(needs_github_check(Some("garbage"), now, 3, false));
    assert!(!needs_github_check(Some("2026-09-13T11:00:00Z"), now, 3, false));
    assert!(needs_github_check(Some("2026-09-13T11:00:00Z"), now, 3, true));
    assert!(needs_github_check(Some("2026-09-13T10:59:59Z"), now, 0, false));
    // an interval above i64::MAX wraps negative, so every check is stale
    assert!(needs_github_check(Some("2026-09-13T11:00:00Z"), now, u64::MAX, false));

    let mut g = state_game("soh");
    let rel = Release {
        tag: "v1.1".into(),
        url: "https://x".into(),
        published_at: None,
        etag: None,
    };
    assert!(apply_release_check(&mut g, Ok(ReleaseOutcome::Released(rel)), "T1").is_none());
    let info = g.github.as_ref().unwrap();
    assert_eq!(info.latest_tag.as_deref(), Some("v1.1"));
    assert!(info.has_update);
    assert_eq!(info.checked_at.as_deref(), Some("T1"));
    assert!(apply_release_check(&mut g, Ok(ReleaseOutcome::NotFound), "T2").is_none());
    assert!(!g.github.as_ref().unwrap().has_update);
    let warning = apply_release_check(&mut g, Err(NetError::RateLimited), "T3");
    assert_eq!(
        warning.as_deref(),
        Some("github soh: GitHub rate limit exceeded")
    );
    assert_eq!(g.github.as_ref().unwrap().checked_at.as_deref(), Some("T2"));
}

#[test]
fn artwork_results() {
    let mut g = state_game("soh");
    assert!(needs_artwork(true, &g));
    assert!(apply_artwork(&mut g, Ok((5, Some("1998-11-23".into()), None))).is_none());
    assert_eq!(g.sgdb.as_ref().unwrap().id, 5);
    assert!(!needs_artwork(true, &g));
    assert!(needs_artwork(false, &g));
    assert_eq!(
        apply_artwork(&mut g, Err("no match".into())).as_deref(),
        Some("sgdb soh: no match")
    );
}
