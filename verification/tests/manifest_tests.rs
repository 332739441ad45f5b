use sync_games::manifest::{
    build_path_to_appid_map, filter_steam_root, parse_appmanifest, parse_libraryfolders_vdf,
    path_is_prefix, read_library_paths, resolve_app_id_for_game, resolve_steam_app_id,
    steam_path_candidates, OsKind,
};

fn no_env() -> Vec<(String, String)> {
    vec![]
}

#[test]
fn appmanifest_yields_appid_and_installdir() {
    let content = "\"AppState\"\n{\n\t\"appid\"\t\t\"440\"\n\t\"name\"\t\t\"Some Game\"\n\t\"installdir\"\t\t\"SomeGame\"\n}\n";
    let (appid, installdir) = parse_appmanifest(content).unwrap();
    assert_eq!(appid, "440");
    assert_eq!(installdir, "SomeGame");
}

#[test]
fn appmanifest_scan_is_whitespace_delimited() {
    // The tolerant scan splits on whitespace, so a quoted value stops at its
    // first space.
    let content = "\"appid\" \"10\" \"installdir\" \"Two Words\"";
    let (_, installdir) = parse_appmanifest(content).unwrap();
    assert_eq!(installdir, "Two");
}

#[test]
fn appmanifest_is_order_independent_and_case_insensitive() {
    let content = "\"InstallDir\" \"Foo\" \"APPID\" \"123\"";
    let (appid, installdir) = parse_appmanifest(content).unwrap();
    assert_eq!(appid, "123");
    assert_eq!(installdir, "Foo");
}

#[test]
fn appmanifest_missing_field_is_skipped() {
    assert!(parse_appmanifest("\"appid\" \"10\"").is_none());
    assert!(parse_appmanifest("\"installdir\" \"X\"").is_none());
    assert!(parse_appmanifest("\"appid\" \"\" \"installdir\" \"X\"").is_none());
    assert!(parse_appmanifest("").is_none());
}

#[test]
fn libraryfolders_paths_are_extracted_and_unescaped() {
    let content = "\"libraryfolders\"\n{\n\t\"0\"\n\t{\n\t\t\"path\"\t\t\"C:\\\\Program Files (x86)\\\\Steam\"\n\t}\n\t\"1\"\n\t{\n\t\t\"path\"\t\t\"D:\\\\SteamLibrary\"\n\t}\n}\n";
    let paths = parse_libraryfolders_vdf(content).unwrap();
    assert_eq!(paths, vec![
        "C:\\Program Files (x86)\\Steam".to_string(),
        "D:\\SteamLibrary".to_string(),
    ]);
}

#[test]
fn libraryfolders_without_paths_is_none() {
    assert!(parse_libraryfolders_vdf("\"libraryfolders\"\n{\n}\n").is_none());
    assert!(parse_libraryfolders_vdf("").is_none());
}

#[test]
fn longest_prefix_resolution_picks_the_deeper_install() {
    let map = vec![
        ("C:\\Games\\Foo".to_string(), "100".to_string()),
        ("C:\\Games\\Foo\\DLC".to_string(), "200".to_string()),
    ];
    let r = resolve_steam_app_id(&map, "C:\\Games\\Foo\\DLC\\saves", &no_env());
    assert_eq!(r.unwrap(), "200");
    let r2 = resolve_steam_app_id(&map, "C:\\Games\\Foo\\saves", &no_env());
    assert_eq!(r2.unwrap(), "100");
    assert!(resolve_steam_app_id(&map, "D:\\Other", &no_env()).is_none());
}

#[test]
fn prefix_match_is_component_wise() {
    let map = vec![("C:\\Games\\Foo".to_string(), "100".to_string())];
    // "FooBar" shares a string prefix with "Foo" but not a component.
    assert!(resolve_steam_app_id(&map, "C:\\Games\\FooBar\\saves", &no_env()).is_none());
    assert!(path_is_prefix("C:/Games/Foo", "C:\\Games\\Foo\\saves"));
    assert!(!path_is_prefix("C:/Games/Foo", "C:/Games/FooBar"));
}

#[test]
fn first_resolvable_registered_path_decides() {
    let map = vec![("/steam/common/Game".to_string(), "77".to_string())];
    let paths = vec!["/elsewhere".to_string(), "/steam/common/Game/saves".to_string()];
    let r = resolve_app_id_for_game(&map, &paths, &no_env());
    assert_eq!(r.unwrap(), "77");
    assert!(resolve_app_id_for_game(&map, &vec!["/elsewhere".to_string()], &no_env()).is_none());
}

#[test]
fn duplicate_install_roots_keep_the_last_identifier() {
    let entries = vec![
        ("1".to_string(), "/lib/common/G".to_string()),
        ("2".to_string(), "/lib/common/H".to_string()),
        ("3".to_string(), "/lib/common/G".to_string()),
    ];
    let map = build_path_to_appid_map(&entries);
    assert_eq!(map, vec![
        ("/lib/common/G".to_string(), "3".to_string()),
        ("/lib/common/H".to_string(), "2".to_string()),
    ]);
}

#[test]
fn library_paths_fall_back_to_the_root() {
    let vdf = "\"path\" \"/lib/a\"".to_string();
    assert_eq!(
        read_library_paths(&vec![vdf], "/root", true),
        vec!["/lib/a".to_string()]
    );
    let empty: Vec<String> = vec![];
    assert_eq!(read_library_paths(&empty, "/root", true), vec!["/root".to_string()]);
    assert!(read_library_paths(&empty, "/root", false).is_empty());
    // An unparseable first manifest falls through to the next.
    assert_eq!(
        read_library_paths(
            &vec!["nothing here".to_string(), "\"path\" \"/lib/b\"".to_string()],
            "/root",
            true,
        ),
        vec!["/lib/b".to_string()]
    );
}

#[test]
fn steam_root_is_dropped_from_the_library_list() {
    let paths = vec!["/Root/Steam".to_string(), "/lib/b".to_string()];
    assert_eq!(filter_steam_root(paths, "/root/steam"), vec!["/lib/b".to_string()]);
}

#[test]
fn install_root_candidates_per_platform() {
    let reg = Some("E:\\CustomSteam".to_string());
    let win = steam_path_candidates(&OsKind::Windows, &reg, &None);
    assert_eq!(win, vec![
        "E:\\CustomSteam".to_string(),
        "C:\\Program Files (x86)\\Steam".to_string(),
        "C:\\Program Files\\Steam".to_string(),
    ]);
    let linux = steam_path_candidates(&OsKind::Linux, &None, &Some("/home/ana".to_string()));
    assert_eq!(linux, vec![
        "/home/ana/.steam/steam".to_string(),
        "/home/ana/.local/share/Steam".to_string(),
    ]);
    let mac = steam_path_candidates(&OsKind::MacOs, &None, &Some("/Users/ana".to_string()));
    assert_eq!(mac, vec!["/Users/ana/Library/Application Support/Steam".to_string()]);
}
