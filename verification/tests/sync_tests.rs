use sync_games::config::Config;
use sync_games::sync::{
    dedup_files, filename_from_key, filter_records_for_game, join_path, plan_download, plan_upload,
    relative_name, remote_info_from_records, require_api_config, summarize_outcomes, RemoteSaveDto,
    SaveFileDto,
};

fn record(game: &str, key: &str, ts: &str) -> RemoteSaveDto {
    RemoteSaveDto {
        game_id: game.to_string(),
        key: key.to_string(),
        last_modified: ts.to_string(),
        size: Some(1),
    }
}

fn cfg_with(base: Option<&str>, user: Option<&str>, key: Option<&str>) -> Config {
    Config {
        api_base_url: base.map(|s| s.to_string()),
        api_key: key.map(|s| s.to_string()),
        user_id: user.map(|s| s.to_string()),
        games: vec![],
        custom_scan_paths: vec![],
    }
}

#[test]
fn filename_strips_the_user_and_game_segments() {
    assert_eq!(filename_from_key("user1/gameA/slot1.sav"), "slot1.sav");
    assert_eq!(filename_from_key("user1/gameA/nested/slot1.sav"), "nested/slot1.sav");
    // Fewer than three segments: the key is its own filename.
    assert_eq!(filename_from_key("user1/slot1.sav"), "user1/slot1.sav");
    assert_eq!(filename_from_key("plain"), "plain");
    // Empty segments count as segments.
    assert_eq!(filename_from_key("a//b/c"), "b/c");
}

#[test]
fn remote_records_gain_display_filenames() {
    let infos = remote_info_from_records(vec![
        record("g", "u/g/a.sav", "2024-01-01T00:00:00Z"),
        record("g", "short", "2024-01-01T00:00:00Z"),
    ]);
    assert_eq!(infos[0].filename, "a.sav");
    assert_eq!(infos[1].filename, "short");
    assert_eq!(infos[0].key, "u/g/a.sav");
}

#[test]
fn filtering_by_game_is_case_insensitive() {
    let infos = remote_info_from_records(vec![
        record("Elden", "u/Elden/a.sav", "t"),
        record("other", "u/other/b.sav", "t"),
        record("ELDEN", "u/ELDEN/c.sav", "t"),
    ]);
    let mine = filter_records_for_game(infos, "elden");
    assert_eq!(mine.len(), 2);
    assert_eq!(mine[0].filename, "a.sav");
    assert_eq!(mine[1].filename, "c.sav");
}

#[test]
fn upload_batch_accounts_every_file() {
    // Five files, the third fails its PUT: ok 4, err 1, one error naming it,
    // and the batch ran to the end.
    let outcomes: Vec<Result<(), String>> = vec![
        Ok(()),
        Ok(()),
        Err("file3.sav: S3 PUT 500".to_string()),
        Ok(()),
        Ok(()),
    ];
    let r = summarize_outcomes(outcomes);
    assert_eq!(r.ok_count, 4);
    assert_eq!(r.err_count, 1);
    assert_eq!(r.errors.len(), 1);
    assert!(r.errors[0].contains("file3.sav"));
}

#[test]
fn empty_remote_listing_is_informational_not_an_error() {
    let infos = remote_info_from_records(vec![record("other", "u/other/b.sav", "t")]);
    let r = plan_download(infos, "mygame");
    match r {
        Err(res) => {
            assert_eq!(res.ok_count, 0);
            assert_eq!(res.err_count, 0);
            assert_eq!(res.errors, vec!["No hay guardados de este juego en la nube".to_string()]);
        },
        Ok(_) => panic!("an empty listing must plan no downloads"),
    }
}

#[test]
fn non_empty_listing_plans_the_games_records() {
    let infos = remote_info_from_records(vec![
        record("g", "u/g/a.sav", "t"),
        record("h", "u/h/b.sav", "t"),
    ]);
    let saves = plan_download(infos, "g").unwrap();
    assert_eq!(saves.len(), 1);
    assert_eq!(saves[0].filename, "a.sav");
}

#[test]
fn upload_without_files_is_informational() {
    let r = plan_upload(vec![]);
    match r {
        Err(res) => {
            assert_eq!(res.ok_count, 0);
            assert_eq!(res.err_count, 0);
            assert_eq!(
                res.errors,
                vec!["No se encontraron archivos en las rutas del juego".to_string()]
            );
        },
        Ok(_) => panic!("no files means nothing to upload"),
    }
}

#[test]
fn dedup_keeps_the_first_occurrence() {
    let files = vec![
        SaveFileDto { absolute: "/a/x".to_string(), relative: "x".to_string() },
        SaveFileDto { absolute: "/a/y".to_string(), relative: "y".to_string() },
        SaveFileDto { absolute: "/a/x".to_string(), relative: "x2".to_string() },
    ];
    let d = dedup_files(files);
    assert_eq!(d.len(), 2);
    assert_eq!(d[0].relative, "x");
    assert_eq!(d[1].relative, "y");
}

#[test]
fn relative_names_use_forward_slashes() {
    assert_eq!(relative_name("C:\\base\\sub\\f.sav", "C:\\base").unwrap(), "sub/f.sav");
    assert_eq!(relative_name("/base/f.sav", "/base").unwrap(), "f.sav");
    assert!(relative_name("/elsewhere/f.sav", "/base").is_none());
}

#[test]
fn api_settings_are_checked_before_any_request() {
    let r = require_api_config(&cfg_with(None, Some("u"), None));
    assert_eq!(r.unwrap_err(), "Configura apiBaseUrl en Configuración");
    let r = require_api_config(&cfg_with(Some("https://api"), Some("  "), None));
    assert_eq!(r.unwrap_err(), "Configura userId en Configuración");
    let (b, u, k) = require_api_config(&cfg_with(Some("https://api"), Some("ana"), None)).unwrap();
    assert_eq!(b, "https://api");
    assert_eq!(u, "ana");
    assert_eq!(k, "");
}

#[test]
fn destination_paths_join_with_a_slash() {
    assert_eq!(join_path("/base", "sub/f.sav"), "/base/sub/f.sav");
}
