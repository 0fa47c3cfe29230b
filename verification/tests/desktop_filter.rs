use ogm::desktop::parse_desktop;
use ogm::filter::{filter_games, GameFilter};
use ogm::model::{Category, Game};

#[test]
fn parses_outrun_fixture() {
    let content = r#"[Desktop Entry]
Type=Application
Name=OutRun 2006: Coast 2 Coast (PC on gaming)
Comment=Windows PC racing game via Wine in gaming
Exec=/usr/bin/distrobox-enter -n gaming -- /mnt/data/distrobox/gaming/bin/outrun-2006
Icon=wine
Categories=Game;
StartupWMClass=OR2006C2C.exe;
"#;
    let e = parse_desktop(content);
    assert_eq!(
        e.name.as_deref(),
        Some("OutRun 2006: Coast 2 Coast (PC on gaming)")
    );
    assert_eq!(
        e.exec_line.as_deref(),
        Some(
            "/usr/bin/distrobox-enter -n gaming -- /mnt/data/distrobox/gaming/bin/outrun-2006"
        )
    );
    assert_eq!(e.icon.as_deref(), Some("wine"));
    assert_eq!(e.categories, vec!["Game"]);
}

#[test]
fn strips_exec_field_codes() {
    let content = "[Desktop Entry]\nName=X\nExec=flycast-hires %f\n";
    assert_eq!(
        parse_desktop(content).exec_line.as_deref(),
        Some("flycast-hires")
    );

    let content = "[Desktop Entry]\nName=X\nExec=app %U --icon %i %c %k\n";
    assert_eq!(parse_desktop(content).exec_line.as_deref(), Some("app --icon"));

    let content = "[Desktop Entry]\nName=X\nExec=app 100%% %u\n";
    assert_eq!(parse_desktop(content).exec_line.as_deref(), Some("app 100%"));
}

#[test]
fn unescapes_desktop_chars() {
    let content = "[Desktop Entry]\nName=Zelda\\sOcarina\\nTime \\\\Test\n";
    assert_eq!(
        parse_desktop(content).name.as_deref(),
        Some("Zelda Ocarina\nTime \\Test")
    );
}

#[test]
fn ignores_other_groups_and_comments() {
    let content =
        "# comment\n[Desktop Entry]\nName=Real\n[Desktop Action New]\nName=Fake\nExec=fake\n";
    let e = parse_desktop(content);
    assert_eq!(e.name.as_deref(), Some("Real"));
    assert!(e.exec_line.is_none());
}

#[test]
fn parses_multivalue_categories() {
    let content = "[Desktop Entry]\nName=E\nCategories=Game;Emulator;\n";
    assert_eq!(parse_desktop(content).categories, vec!["Game", "Emulator"]);
}

#[test]
fn parses_full_ogm_metadata() {
    let content = "[Desktop Entry]\nName=SoH\nExec=/run/soh\n\
        X-OGM-Managed=true\nX-OGM-Category=port\n\
        X-OGM-GitHub=HarbourMasters/Shipwright\nX-OGM-SGDBQuery=Ship of Harkinian\n";
    let meta = parse_desktop(content).ogm.unwrap();
    assert_eq!(meta.managed, Some(true));
    assert_eq!(meta.category, Some(Category::Port));
    assert_eq!(meta.github.as_deref(), Some("HarbourMasters/Shipwright"));
    assert_eq!(meta.sgdb_query.as_deref(), Some("Ship of Harkinian"));
}

#[test]
fn ogm_marker_only() {
    let content = "[Desktop Entry]\nName=X\nX-OGM-Managed=true\n";
    let meta = parse_desktop(content).ogm.unwrap();
    assert_eq!(meta.managed, Some(true));
    assert_eq!(meta.category, None);
    assert!(meta.github.is_none() && meta.sgdb_query.is_none());
}

#[test]
fn ogm_managed_is_tri_state() {
    let content = "[Desktop Entry]\nName=X\nX-OGM-Managed=false\n";
    assert_eq!(parse_desktop(content).ogm.unwrap().managed, Some(false));
    let content = "[Desktop Entry]\nName=X\nX-OGM-Managed=yes\n";
    assert_eq!(parse_desktop(content).ogm.unwrap().managed, Some(false));
    let content = "[Desktop Entry]\nName=X\nX-OGM-Managed= true \n";
    assert_eq!(parse_desktop(content).ogm.unwrap().managed, Some(true));
}

#[test]
fn ogm_keys_are_case_insensitive_and_unknown_category_is_none() {
    let content = "[Desktop Entry]\nName=X\nx-ogm-managed=true\nX-Ogm-Category=bogus\n";
    let meta = parse_desktop(content).ogm.unwrap();
    assert_eq!(meta.managed, Some(true));
    assert_eq!(meta.category, None);
}

#[test]
fn no_ogm_keys_means_none() {
    let content = "[Desktop Entry]\nName=X\nExec=/run\n";
    assert!(parse_desktop(content).ogm.is_none());
}

#[test]
fn parses_ogm_web_keys() {
    let content = "[Desktop Entry]\nName=X\nX-OGM-Managed=true\n\
        X-OGM-WebURL=https://example.com/project\n\
        X-OGM-UpdateURL=https://example.com/downloads\n\
        X-OGM-UpdateRegex=version ([0-9.]+)\n";
    let meta = parse_desktop(content).ogm.unwrap();
    assert_eq!(meta.web_url.as_deref(), Some("https://example.com/project"));
    assert_eq!(
        meta.update_url.as_deref(),
        Some("https://example.com/downloads")
    );
    assert_eq!(meta.update_regex.as_deref(), Some("version ([0-9.]+)"));
}

#[test]
fn ogm_web_keys_optional_and_case_insensitive() {
    let content =
        "[Desktop Entry]\nName=X\nx-ogm-managed=true\nx-OGM-weburl=https://example.com\n";
    let meta = parse_desktop(content).ogm.unwrap();
    assert_eq!(meta.web_url.as_deref(), Some("https://example.com"));
    assert!(meta.update_url.is_none() && meta.update_regex.is_none());
}

#[test]
fn unknown_ogm_key_still_creates_metadata_and_crlf_lines_parse() {
    let content = "[Desktop Entry]\r\nName=X\\q\\\r\nX-OGM-Other=1\r\nExec=a  %%%%  %z\r\n";
    let e = parse_desktop(content);
    assert_eq!(e.name.as_deref(), Some("X\\q\\"));
    assert_eq!(e.exec_line.as_deref(), Some("a %% %z"));
    assert_eq!(e.ogm.unwrap().managed, None);
}

fn game(id: &str, name: &str, category: Category) -> Game {
    Game {
        id: id.into(),
        name: name.into(),
        category,
        exec_line: "true".into(),
        icon: "i".into(),
        desktop_id: None,
        custom: false,
        added_at: "2026-01-01T00:00:00Z".into(),
        last_played: None,
        play_count: 0,
        installed_version: None,
        github: None,
        sgdb: None,
        web: None,
    }
}

fn fixture() -> Vec<Game> {
    vec![
        game("soh", "Ship of Harkinian", Category::Port),
        game("dkc", "Donkey Kong Country Recomp", Category::Recomp),
        game("sorr", "Streets of Rage Remake", Category::Wine),
    ]
}

#[test]
fn empty_filter_matches_all() {
    let g = fixture();
    assert_eq!(filter_games(&g, &GameFilter::default()).len(), 3);
}

#[test]
fn filters_by_category_subset() {
    let g = fixture();
    let f = GameFilter {
        categories: vec![Category::Port, Category::Wine],
        query: String::new(),
    };
    let out = filter_games(&g, &f);
    assert_eq!(out.len(), 2);
    assert!(out.iter().all(|g| g.category != Category::Recomp));
}

#[test]
fn filters_by_case_insensitive_substring() {
    let g = fixture();
    let f = GameFilter {
        categories: vec![],
        query: "SHIP".into(),
    };
    let out = filter_games(&g, &f);
    assert_eq!(out.len(), 1);
    assert_eq!(out[0].id, "soh");
}

#[test]
fn combines_category_and_query() {
    let g = fixture();
    let f = GameFilter {
        categories: vec![Category::Recomp],
        query: "donkey".into(),
    };
    let out = filter_games(&g, &f);
    assert_eq!(out.len(), 1);
    let f2 = GameFilter {
        categories: vec![Category::Port],
        query: "donkey".into(),
    };
    assert!(filter_games(&g, &f2).is_empty());
}

#[test]
fn blank_query_is_ignored() {
    let g = fixture();
    let f = GameFilter {
        categories: vec![],
        query: "   ".into(),
    };
    assert_eq!(filter_games(&g, &f).len(), 3);
}

#[test]
fn category_names_round_trip() {
    for c in [
        Category::Port,
        Category::Decomp,
        Category::Recomp,
        Category::Fangame,
        Category::Wine,
        Category::Arcade,
        Category::Emulator,
        Category::Tool,
        Category::Custom,
    ] {
        assert_eq!(Category::from_name(c.as_str()), Some(c));
    }
    assert_eq!(Category::Fangame.as_str(), "fangame");
    assert_eq!(Category::from_name("Port"), None);
    assert_eq!(Category::from_name("bogus"), None);
}
