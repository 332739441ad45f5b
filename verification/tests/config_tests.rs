use sync_games::config::{
    add_game, config_path, config_to_dto, config_with_env_defaults, game_to_dto,
    get_game_save_path, import_config, remove_game, Config, ConfiguredGame,
};

fn game(id: &str, paths: &[&str], steam: Option<&str>, image: Option<&str>) -> ConfiguredGame {
    ConfiguredGame {
        id: id.to_string(),
        paths: paths.iter().map(|s| s.to_string()).collect(),
        steam_app_id: steam.map(|s| s.to_string()),
        image_url: image.map(|s| s.to_string()),
    }
}

fn cfg(games: Vec<ConfiguredGame>) -> Config {
    Config {
        api_base_url: Some("https://api".to_string()),
        api_key: None,
        user_id: Some("ana".to_string()),
        games,
        custom_scan_paths: vec![],
    }
}

#[test]
fn adding_to_an_unknown_game_creates_it() {
    let out = add_game(cfg(vec![]), " Elden ", " /saves ").unwrap();
    assert_eq!(out.games.len(), 1);
    assert_eq!(out.games[0].id, "Elden");
    assert_eq!(out.games[0].paths, vec!["/saves".to_string()]);
    assert!(out.games[0].steam_app_id.is_none());
}

#[test]
fn adding_to_an_existing_game_appends_the_missing_path() {
    let base = cfg(vec![game("Elden", &["/a"], Some("100"), None)]);
    let out = add_game(base, "ELDEN", "/b").unwrap();
    assert_eq!(out.games.len(), 1);
    assert_eq!(out.games[0].paths, vec!["/a".to_string(), "/b".to_string()]);
    assert_eq!(out.games[0].steam_app_id.as_deref(), Some("100"));
    // A path already present is not duplicated.
    let again = add_game(out, "elden", "/b").unwrap();
    assert_eq!(again.games[0].paths, vec!["/a".to_string(), "/b".to_string()]);
}

#[test]
fn empty_id_or_path_is_rejected() {
    let e = add_game(cfg(vec![]), "  ", "/a").unwrap_err();
    assert_eq!(e, "gameId and path are required");
    let e2 = add_game(cfg(vec![]), "g", "   ").unwrap_err();
    assert_eq!(e2, "gameId and path are required");
}

#[test]
fn removing_a_path_keeps_the_game_until_the_last_one_goes() {
    let base = cfg(vec![game("G", &["/a", "/b"], None, None)]);
    let out = remove_game(base, "g", Some("/a")).unwrap();
    assert_eq!(out.games.len(), 1);
    assert_eq!(out.games[0].paths, vec!["/b".to_string()]);
    let emptied = remove_game(out, "g", Some("/b")).unwrap();
    assert_eq!(emptied.games.len(), 0);
}

#[test]
fn removing_without_a_path_drops_the_game() {
    let base = cfg(vec![game("G", &["/a"], None, None), game("H", &["/h"], None, None)]);
    let out = remove_game(base, "G", None).unwrap();
    assert_eq!(out.games.len(), 1);
    assert_eq!(out.games[0].id, "H");
}

#[test]
fn removing_an_unknown_game_names_it() {
    let e = remove_game(cfg(vec![]), "nope", None).unwrap_err();
    assert_eq!(e, "Juego no encontrado: nope");
}

#[test]
fn merge_import_appends_only_missing_paths_and_fills_absent_fields() {
    let existing = cfg(vec![game("Elden", &["/a", "/b"], None, Some("http://img"))]);
    let imported = Config {
        api_base_url: None,
        api_key: None,
        user_id: None,
        games: vec![game("ELDEN", &["/b", "/c"], Some("200"), Some("http://other"))],
        custom_scan_paths: vec!["/roots".to_string()],
    };
    let out = import_config(existing, imported, "merge").unwrap();
    assert_eq!(out.games.len(), 1);
    // The identifier and present paths stay; only the missing path is appended.
    assert_eq!(out.games[0].id, "Elden");
    assert_eq!(out.games[0].paths, vec!["/a".to_string(), "/b".to_string(), "/c".to_string()]);
    // steamAppId was absent: filled. imageUrl was present: kept.
    assert_eq!(out.games[0].steam_app_id.as_deref(), Some("200"));
    assert_eq!(out.games[0].image_url.as_deref(), Some("http://img"));
    // The existing API settings stay; custom roots merge.
    assert_eq!(out.api_base_url.as_deref(), Some("https://api"));
    assert_eq!(out.custom_scan_paths, vec!["/roots".to_string()]);
}

#[test]
fn merge_import_adds_unknown_games() {
    let existing = cfg(vec![game("A", &["/a"], None, None)]);
    let imported = Config {
        api_base_url: None,
        api_key: None,
        user_id: None,
        games: vec![game("B", &["/b"], None, None)],
        custom_scan_paths: vec![],
    };
    let out = import_config(existing, imported, "merge").unwrap();
    assert_eq!(out.games.len(), 2);
    assert_eq!(out.games[1].id, "B");
}

#[test]
fn replace_import_adopts_the_whole_snapshot() {
    let existing = cfg(vec![game("A", &["/a"], None, None)]);
    let imported = Config {
        api_base_url: Some("https://new".to_string()),
        api_key: Some("k2".to_string()),
        user_id: Some("bea".to_string()),
        games: vec![],
        custom_scan_paths: vec![],
    };
    let out = import_config(existing, imported, "replace").unwrap();
    assert_eq!(out.api_base_url.as_deref(), Some("https://new"));
    assert_eq!(out.user_id.as_deref(), Some("bea"));
    assert_eq!(out.games.len(), 0);
}

#[test]
fn unknown_import_mode_is_rejected() {
    let e = import_config(cfg(vec![]), cfg(vec![]), "fuse").unwrap_err();
    assert_eq!(e, "mode debe ser 'merge' o 'replace'");
}

#[test]
fn env_defaults_fill_only_blank_settings() {
    let base = Config {
        api_base_url: Some("  ".to_string()),
        api_key: Some("have".to_string()),
        user_id: None,
        games: vec![],
        custom_scan_paths: vec![],
    };
    let out = config_with_env_defaults(
        base,
        Some("https://env".to_string()),
        Some("envkey".to_string()),
    );
    assert_eq!(out.api_base_url.as_deref(), Some("https://env"));
    assert_eq!(out.api_key.as_deref(), Some("have"));
}

#[test]
fn config_path_ends_with_the_application_file() {
    match config_path() {
        Some(p) => assert!(p.ends_with("/sync-games/config.json")),
        None => {},
    }
}

#[test]
fn dto_resolution_prefers_configured_identifier_and_respects_images() {
    let d1 = game_to_dto(game("A", &[], Some("1"), None), Some("9".to_string()));
    assert_eq!(d1.steam_app_id.as_deref(), Some("1"));
    let d2 = game_to_dto(game("A", &[], None, None), Some("9".to_string()));
    assert_eq!(d2.steam_app_id.as_deref(), Some("9"));
    let d3 = game_to_dto(game("A", &[], None, Some("img")), Some("9".to_string()));
    assert!(d3.steam_app_id.is_none());
}

#[test]
fn merge_import_deduplicates_custom_roots() {
    let mut existing = cfg(vec![]);
    existing.custom_scan_paths = vec!["/a".to_string(), "/b".to_string()];
    let imported = Config {
        api_base_url: None,
        api_key: None,
        user_id: None,
        games: vec![],
        custom_scan_paths: vec!["/b".to_string(), "/c".to_string(), "/b".to_string()],
    };
    let out = import_config(existing, imported, "merge").unwrap();
    assert_eq!(
        out.custom_scan_paths,
        vec!["/a".to_string(), "/b".to_string(), "/c".to_string()]
    );
}

#[test]
fn whole_config_maps_to_its_presentation_form() {
    let base = cfg(vec![
        game("A", &["/a"], Some("1"), None),
        game("B", &["/b"], None, None),
    ]);
    let dto = config_to_dto(base, vec![None, Some("9".to_string())]);
    assert_eq!(dto.api_base_url.as_deref(), Some("https://api"));
    assert_eq!(dto.games.len(), 2);
    assert_eq!(dto.games[0].steam_app_id.as_deref(), Some("1"));
    assert_eq!(dto.games[1].steam_app_id.as_deref(), Some("9"));
}

#[test]
fn save_path_lookup_reports_each_failure() {
    let env: Vec<(String, String)> = vec![];
    let e = get_game_save_path(&cfg(vec![]), "nope", &env, &None).unwrap_err();
    assert_eq!(e, "Juego no encontrado: nope");
    let e2 = get_game_save_path(&cfg(vec![game("G", &[], None, None)]), "G", &env, &None)
        .unwrap_err();
    assert_eq!(e2, "El juego no tiene rutas configuradas");
    let e3 = get_game_save_path(
        &cfg(vec![game("G", &["%NOPE%"], None, None)]),
        "G",
        &env,
        &None,
    )
    .unwrap_err();
    assert_eq!(e3, "No se pudo expandir la ruta");
    let p = get_game_save_path(
        &cfg(vec![game("G", &[" /saves "], None, None)]),
        "g",
        &env,
        &None,
    )
    .unwrap();
    assert_eq!(p, "/saves");
}
