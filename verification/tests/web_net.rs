use ogm::model::WebInfo;
use ogm::net::{
    append_chunk, check_api_key, classify_release_status, github_release_url, parse_asset_response,
    parse_release_response, parse_search_response, released, sgdb_grid_url, sgdb_hero_url,
    sgdb_search_url, NetError, ReleaseOutcome, ReleaseStep, MAX_BODY,
};
use ogm::web::{apply_web_check, extract_version, fingerprint, hex_string, version_from_captures};

fn web(latest: Option<&str>) -> WebInfo {
    WebInfo {
        url: None,
        update_url: "https://example.com/dl".into(),
        regex: None,
        latest: latest.map(|s| s.into()),
        latest_is_version: false,
        checked_at: None,
        has_update: false,
    }
}

#[test]
fn extract_version_prefers_group_one() {
    let body = "<h1>Download version 2.4.1 for Linux</h1>";
    assert_eq!(
        extract_version(body, "version ([0-9.]+)").as_deref(),
        Some("2.4.1")
    );
}

#[test]
fn extract_version_without_group_uses_whole_match() {
    let body = "build R85 now available";
    assert_eq!(extract_version(body, "R[0-9]+").as_deref(), Some("R85"));
}

#[test]
fn extract_version_no_match_or_bad_pattern() {
    assert_eq!(extract_version("nothing here", "v[0-9]+"), None);
    assert_eq!(extract_version("anything", "([unclosed"), None);
}

#[test]
fn extract_version_falls_back_when_group_one_does_not_take_part() {
    assert_eq!(
        extract_version("release R7", "v([0-9]+)|R[0-9]+").as_deref(),
        Some("R7")
    );
}

#[test]
fn version_from_captures_picks_group_one_else_whole_match() {
    let caps = Some(vec![Some("version 1.2".to_string()), Some("1.2".to_string())]);
    assert_eq!(version_from_captures(&caps).as_deref(), Some("1.2"));
    let caps = Some(vec![Some("R85".to_string()), None]);
    assert_eq!(version_from_captures(&caps).as_deref(), Some("R85"));
    let caps = Some(vec![Some("R85".to_string())]);
    assert_eq!(version_from_captures(&caps).as_deref(), Some("R85"));
    assert_eq!(version_from_captures(&None), None);
}

#[test]
fn fingerprint_prefers_etag_then_last_modified_then_sha256() {
    assert_eq!(
        fingerprint(Some("\"abc123\""), Some("Mon, 01 Jan 2026"), "body"),
        "\"abc123\""
    );
    assert_eq!(
        fingerprint(None, Some("Mon, 01 Jan 2026 00:00:00 GMT"), "body"),
        "Mon, 01 Jan 2026 00:00:00 GMT"
    );
    assert_eq!(
        fingerprint(Some("  "), None, "body"),
        fingerprint(None, None, "body")
    );
    let fp = fingerprint(None, None, "hello");
    assert_eq!(fp.len(), 64);
    assert!(fp.chars().all(|c| c.is_ascii_hexdigit()));
    assert_eq!(fp, fingerprint(None, None, "hello"));
    assert_ne!(fp, fingerprint(None, None, "hello2"));
}

#[test]
fn fingerprint_of_body_is_its_sha256() {
    assert_eq!(
        fingerprint(None, None, "hello"),
        "2cf24dba5fb0a30e26e83b2ac5b9e29e1b161e5c1fa7425e73043362938b9824"
    );
    assert_eq!(fingerprint(Some(" \"e\" "), None, "x"), "\"e\"");
}

#[test]
fn hex_string_is_two_lowercase_digits_per_byte() {
    assert_eq!(hex_string(&vec![0x00, 0x0f, 0xa0, 0xff]), "000fa0ff");
    assert_eq!(hex_string(&vec![]), "");
}

#[test]
fn first_check_is_baseline_without_update() {
    let mut w = web(None);
    apply_web_check(&mut w, "fp1".into(), false, "T0");
    assert_eq!(w.latest.as_deref(), Some("fp1"));
    assert!(!w.has_update);
    assert_eq!(w.checked_at.as_deref(), Some("T0"));
}

#[test]
fn changed_value_flags_update() {
    let mut w = web(Some("fp1"));
    apply_web_check(&mut w, "fp1".into(), false, "T0");
    assert!(!w.has_update, "unchanged value is not an update");
    apply_web_check(&mut w, "fp2".into(), false, "T1");
    assert!(w.has_update);
    assert_eq!(w.latest.as_deref(), Some("fp2"));
    assert_eq!(w.checked_at.as_deref(), Some("T1"));
}

#[test]
fn version_extraction_marks_latest_is_version() {
    let mut w = web(None);
    apply_web_check(&mut w, "2.4.1".into(), true, "T0");
    assert!(w.latest_is_version);
    assert!(!w.has_update);
    let mut w2 = web(Some("2.4.1"));
    apply_web_check(&mut w2, "2.5.0".into(), true, "T1");
    assert!(w2.has_update && w2.latest_is_version);
}

#[test]
fn cleared_badge_stays_cleared_until_value_changes() {
    let mut w = web(Some("fp1"));
    apply_web_check(&mut w, "fp2".into(), false, "T0");
    assert!(w.has_update);
    w.has_update = false; // what `ogm launch` does
    apply_web_check(&mut w, "fp2".into(), false, "T1");
    assert!(!w.has_update, "same value keeps badge cleared");
}

const RELEASE_JSON: &str = r#"{
    "url": "https://api.github.com/repos/HarbourMasters/Shipwright/releases/261234567",
    "tag_name": "9.1.2",
    "name": "Ackbar Alfa",
    "draft": false,
    "prerelease": false,
    "created_at": "2026-09-01T00:00:00Z",
    "published_at": "2026-09-01T00:00:00Z",
    "html_url": "https://github.com/HarbourMasters/Shipwright/releases/tag/9.1.2",
    "assets": [{"name": "SoH-Ackbar-Alfa-Linux.zip"}]
}"#;

#[test]
fn parses_github_release_fixture() {
    let r = parse_release_response(RELEASE_JSON).unwrap();
    assert_eq!(r.tag, "9.1.2");
    assert_eq!(
        r.url,
        "https://github.com/HarbourMasters/Shipwright/releases/tag/9.1.2"
    );
    assert_eq!(r.published_at.as_deref(), Some("2026-09-01T00:00:00Z"));
    assert!(r.etag.is_none());
}

#[test]
fn missing_tag_is_parse_error() {
    assert!(parse_release_response("{}").is_err());
    assert!(parse_release_response("not json").is_err());
}

#[test]
fn missing_tag_message_and_missing_url_default() {
    assert_eq!(
        parse_release_response("{}"),
        Err(NetError::Parse("missing tag_name".into()))
    );
    let r = parse_release_response(r#"{"tag_name": "v1"}"#).unwrap();
    assert_eq!(r.url, "");
    assert!(r.published_at.is_none());
}

#[test]
fn body_that_is_not_json_is_a_parse_error_with_the_parser_message() {
    let want = serde_json::from_str::<serde_json::Value>("not json")
        .unwrap_err()
        .to_string();
    assert_eq!(parse_release_response("not json"), Err(NetError::Parse(want.clone())));
    assert_eq!(parse_asset_response("not json"), Err(NetError::Parse(want)));
}

#[test]
fn released_carries_the_etag() {
    match released(RELEASE_JSON, Some("W/\"x\"".into())) {
        Ok(ReleaseOutcome::Released(r)) => {
            assert_eq!(r.tag, "9.1.2");
            assert_eq!(r.etag.as_deref(), Some("W/\"x\""));
        }
        other => panic!("unexpected {other:?}"),
    }
}

#[test]
fn release_status_decisions() {
    assert!(matches!(
        classify_release_status(304, None),
        ReleaseStep::Answer(Ok(ReleaseOutcome::NotModified))
    ));
    assert!(matches!(
        classify_release_status(404, None),
        ReleaseStep::Answer(Ok(ReleaseOutcome::NotFound))
    ));
    assert!(matches!(
        classify_release_status(403, Some("0")),
        ReleaseStep::Answer(Err(NetError::RateLimited))
    ));
    assert!(matches!(
        classify_release_status(403, Some("12")),
        ReleaseStep::Answer(Err(NetError::Status(403)))
    ));
    assert!(matches!(classify_release_status(200, None), ReleaseStep::ReadBody));
    assert!(matches!(
        classify_release_status(500, None),
        ReleaseStep::Answer(Err(NetError::Status(500)))
    ));
}

#[test]
fn net_error_messages() {
    assert_eq!(NetError::RateLimited.message(), "GitHub rate limit exceeded");
    assert_eq!(NetError::Status(404).message(), "unexpected status 404 Not Found");
    assert_eq!(
        NetError::Parse("x".into()).message(),
        "failed to parse response: x"
    );
    assert_eq!(
        NetError::MissingApiKey.message(),
        "missing SteamGridDB API key"
    );
    assert_eq!(
        NetError::Transport("boom".into()).message(),
        "transport error: boom"
    );
}

#[test]
fn page_body_is_capped() {
    let mut body = vec![1u8; MAX_BODY - 2];
    assert!(append_chunk(&mut body, &[2u8]));
    assert_eq!(body.len(), MAX_BODY - 1);
    assert!(!append_chunk(&mut body, &[3u8, 4, 5]));
    assert_eq!(body.len(), MAX_BODY);
    assert_eq!(body[MAX_BODY - 1], 3);
}

const SEARCH_JSON: &str = r#"{
    "success": true,
    "data": [
        {
            "id": 5234567,
            "name": "The Legend of Zelda: Ocarina of Time",
            "release_date": 911779200,
            "types": ["steam", "gog"],
            "verified": true
        },
        {"id": 999, "name": "Ocarina Clone", "release_date": 0, "types": []}
    ]
}"#;

const GRIDS_JSON: &str = r#"{
    "success": true,
    "data": [
        {
            "id": 111222,
            "score": 42,
            "width": 600,
            "height": 900,
            "url": "https://cdn2.steamgriddb.com/grid/abc123def456.jpg",
            "thumb": "https://cdn2.steamgriddb.com/thumb/abc123def456.jpg"
        },
        {"id": 111223, "url": "https://cdn2.steamgriddb.com/grid/zzz.png"}
    ]
}"#;

#[test]
fn parses_search_fixture_with_epoch_release_date() {
    let games = parse_search_response("ocarina of time", SEARCH_JSON).unwrap();
    assert_eq!(games.len(), 2);
    let game = &games[0];
    assert_eq!(game.id, 5234567);
    assert_eq!(game.name, "The Legend of Zelda: Ocarina of Time");
    assert_eq!(game.release_date.as_deref(), Some("1998-11-23"));
    assert_eq!(game.types, vec!["steam", "gog"]);
}

#[test]
fn exact_name_match_sorts_first() {
    let body = r#"{"success":true,"data":[
        {"id": 15166, "name": "Wipeout Omega Collection", "release_date": 1496707200, "types": ["steam"]},
        {"id": 5296247, "name": "Wipeout", "release_date": 812592000, "types": []}
    ]}"#;
    let games = parse_search_response("Wipeout", body).unwrap();
    assert_eq!(
        games[0].id, 5296247,
        "exact match wins over autocomplete order"
    );
    assert_eq!(games[1].id, 15166);
    // no exact match: autocomplete order preserved
    let games = parse_search_response("wipe", body).unwrap();
    assert_eq!(games[0].id, 15166);
}

#[test]
fn empty_search_yields_no_candidates() {
    assert!(parse_search_response("x", r#"{"success":true,"data":[]}"#)
        .unwrap()
        .is_empty());
    assert!(parse_search_response("x", r#"{"success":false}"#)
        .unwrap()
        .is_empty());
    assert!(parse_search_response("x", "not json").is_err());
}

#[test]
fn hits_without_an_id_are_skipped() {
    let body = r#"{"data":[{"name":"NoId"},{"id":-3,"name":"Neg"},{"id":7,"types":["a",1,"b"]}]}"#;
    let games = parse_search_response("  WIPE ", body).unwrap();
    assert_eq!(games.len(), 1);
    assert_eq!(games[0].id, 7);
    assert_eq!(games[0].name, "");
    assert_eq!(games[0].types, vec!["a", "b"]);
    assert!(games[0].release_date.is_none());
}

#[test]
fn parses_grids_fixture_first_url() {
    assert_eq!(
        parse_asset_response(GRIDS_JSON).unwrap().as_deref(),
        Some("https://cdn2.steamgriddb.com/grid/abc123def456.jpg")
    );
    assert!(parse_asset_response(r#"{"success":true,"data":[]}"#)
        .unwrap()
        .is_none());
}

#[test]
fn request_urls() {
    assert_eq!(
        github_release_url("HarbourMasters/Shipwright"),
        "https://api.github.com/repos/HarbourMasters/Shipwright/releases/latest"
    );
    assert_eq!(
        sgdb_search_url("ocarina"),
        "https://www.steamgriddb.com/api/v2/search/autocomplete/ocarina"
    );
    assert_eq!(
        sgdb_grid_url(42),
        "https://www.steamgriddb.com/api/v2/grids/game/42?dimensions=600x900"
    );
    assert_eq!(
        sgdb_hero_url(42),
        "https://www.steamgriddb.com/api/v2/heroes/game/42"
    );
    assert_eq!(check_api_key(""), Err(NetError::MissingApiKey));
    assert_eq!(check_api_key("k"), Ok(()));
}
