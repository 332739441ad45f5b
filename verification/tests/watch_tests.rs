use sync_games::config::Config;
use sync_games::watch::{games_for_changed_paths, path_to_game_id, watcher_enabled};

fn roots(v: &[(&str, &str)]) -> Vec<(String, String)> {
    v.iter().map(|(a, b)| (a.to_string(), b.to_string())).collect()
}

#[test]
fn longest_watch_root_wins() {
    let r = roots(&[("/saves", "outer"), ("/saves/deep", "inner")]);
    assert_eq!(path_to_game_id("/saves/deep/slot1.sav", &r).unwrap(), "inner");
    assert_eq!(path_to_game_id("/saves/slot1.sav", &r).unwrap(), "outer");
    assert!(path_to_game_id("/elsewhere/x", &r).is_none());
}

#[test]
fn one_batch_triggers_each_game_once() {
    let r = roots(&[("/a", "gameA"), ("/b", "gameB")]);
    let changed = vec![
        "/a/one.sav".to_string(),
        "/b/two.sav".to_string(),
        "/a/three.sav".to_string(),
        "/outside/x".to_string(),
    ];
    let games = games_for_changed_paths(&changed, &r);
    assert_eq!(games, vec!["gameA".to_string(), "gameB".to_string()]);
}

#[test]
fn watcher_needs_base_url_and_user() {
    let on = Config {
        api_base_url: Some("https://api".to_string()),
        api_key: None,
        user_id: Some("ana".to_string()),
        games: vec![],
        custom_scan_paths: vec![],
    };
    assert!(watcher_enabled(&on));
    let off = Config {
        api_base_url: Some("   ".to_string()),
        api_key: None,
        user_id: Some("ana".to_string()),
        games: vec![],
        custom_scan_paths: vec![],
    };
    assert!(!watcher_enabled(&off));
}
