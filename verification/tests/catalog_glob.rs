use ogm::catalog::{merge_catalog_entries, CatalogEntry};
use ogm::glob::{matches_any, matches_glob};
use ogm::model::Category;

fn entry(id: &str, desktop_id: Option<&str>, name: Option<&str>) -> CatalogEntry {
    CatalogEntry {
        id: id.into(),
        desktop_id: desktop_id.map(|s| s.into()),
        name: name.map(|s| s.into()),
        category: Category::Port,
        github: None,
        sgdb_query: None,
        web_url: None,
        update_url: None,
        update_regex: None,
        version_file: None,
        hidden_default: false,
    }
}

#[test]
fn entry_defaults() {
    let e = CatalogEntry {
        id: "x".into(),
        desktop_id: None,
        name: None,
        category: Category::Custom,
        github: None,
        sgdb_query: None,
        web_url: None,
        update_url: None,
        update_regex: None,
        version_file: None,
        hidden_default: false,
    };
    assert!(!e.hidden_default);
}

#[test]
fn overlay_replaces_bundled_entry_by_desktop_id() {
    let base = vec![
        entry("soh", Some("gaming-soh"), Some("Ship of Harkinian")),
        entry("starship", Some("gaming-starship"), None),
    ];
    let overlay = vec![entry(
        "soh-renamed",
        Some("gaming-soh"),
        Some("My Zelda Port"),
    )];
    let merged = merge_catalog_entries(&base, &overlay);
    assert_eq!(merged.len(), 2);
    assert_eq!(merged[0].id, "soh-renamed");
    assert_eq!(merged[0].name.as_deref(), Some("My Zelda Port"));
    assert_eq!(merged[1].id, "starship");
}

#[test]
fn overlay_replaces_by_id_for_custom_style_entries() {
    let base = vec![entry("mine", None, Some("Old Name"))];
    let overlay = vec![entry("mine", None, Some("New Name"))];
    let merged = merge_catalog_entries(&base, &overlay);
    assert_eq!(merged.len(), 1);
    assert_eq!(merged[0].name.as_deref(), Some("New Name"));
}

#[test]
fn new_fragment_entries_are_appended() {
    let base = vec![entry("a", Some("gaming-a"), None)];
    let overlay = vec![entry("b", Some("gaming-b"), None)];
    let merged = merge_catalog_entries(&base, &overlay);
    assert_eq!(merged.len(), 2);
    assert_eq!(merged[1].id, "b");
}

#[test]
fn sequential_overlays_compose_deterministically() {
    let base = vec![entry("a", Some("gaming-a"), Some("A"))];
    let first = vec![
        entry("a", Some("gaming-a"), Some("A2")),
        entry("b", Some("gaming-b"), None),
    ];
    let second = vec![entry("a", Some("gaming-a"), Some("A3"))];
    let merged = merge_catalog_entries(&merge_catalog_entries(&base, &first), &second);
    assert_eq!(merged.len(), 2);
    assert_eq!(merged[0].name.as_deref(), Some("A3"));
    assert_eq!(merged[1].id, "b");
}

#[test]
fn sequential_merge_equals_merge_of_concatenation() {
    let base = vec![entry("a", Some("gaming-a"), Some("A")), entry("c", None, None)];
    let first = vec![entry("x", Some("gaming-a"), Some("A2")), entry("b", None, None)];
    let second = vec![entry("c", None, Some("C")), entry("b", Some("gaming-b"), None)];
    let mut both = first.clone();
    both.extend(second.clone());
    assert_eq!(
        merge_catalog_entries(&merge_catalog_entries(&base, &first), &second),
        merge_catalog_entries(&base, &both)
    );
}

#[test]
fn same_id_with_other_desktop_file_is_appended() {
    // An id match replaces only custom-style entries without a desktop file.
    let base = vec![entry("a", Some("gaming-x"), None)];
    let overlay = vec![entry("a", Some("gaming-y"), None)];
    let merged = merge_catalog_entries(&base, &overlay);
    assert_eq!(merged.len(), 2);
    assert_eq!(merged[0], base[0]);
    assert_eq!(merged[1], overlay[0]);
    let base = vec![entry("a", Some("gaming-x"), None)];
    let overlay = vec![entry("a", None, Some("N"))];
    assert_eq!(merge_catalog_entries(&base, &overlay).len(), 2);
}

#[test]
fn overlay_without_desktop_id_does_not_match_on_missing_desktop_ids() {
    // None == None desktop ids do not count as a match.
    let base = vec![entry("a", None, None)];
    let overlay = vec![entry("b", None, None)];
    assert_eq!(merge_catalog_entries(&base, &overlay).len(), 2);
}

#[test]
fn prefix_and_exact() {
    assert!(matches_glob("gaming-ship-of-harkinian", "gaming-*"));
    assert!(!matches_glob("pc-outrun-2006", "gaming-*"));
    assert!(matches_glob("screamer", "screamer"));
    assert!(!matches_glob("screamer2", "screamer"));
    assert!(!matches_glob("gaming.desktop", "gaming-*"));
}

#[test]
fn matches_any_uses_list() {
    let pats = vec!["gaming-*".to_string(), "screamer".to_string()];
    assert!(matches_any("gaming-x", &pats));
    assert!(matches_any("screamer", &pats));
    assert!(!matches_any("screamer2", &pats));
    assert!(!matches_any("other", &pats));
}

#[test]
fn glob_star_alone_matches_everything() {
    assert!(matches_glob("anything", "*"));
    assert!(matches_glob("", "*"));
    assert!(!matches_glob("a*", "b"));
}
