use sync_games::scan::{
    base_path_templates, crack_save_locations, find_steam_library_candidates,
    find_steam_userdata_candidates, is_system_root, scan_base_paths, scan_candidates, scan_cracks,
    CrackLocation, PathCandidateDto, ScanSnapshot, SteamScan,
};
use sync_games::tree::DirTree;

fn names(v: &[&str]) -> Vec<String> {
    v.iter().map(|s| s.to_string()).collect()
}

fn dir(path: &str, name: &str, files: &[&str], subdirs: Vec<DirTree>) -> DirTree {
    DirTree { path: path.to_string(), name: name.to_string(), files: names(files), subdirs }
}

fn save_dir(path: &str, name: &str) -> DirTree {
    dir(path, name, &["slot1.sav"], vec![])
}

fn plain_snapshot(bases: Vec<(String, DirTree)>) -> ScanSnapshot {
    ScanSnapshot { bases, steam: None, cracks: vec![], customs: vec![] }
}

fn cand_triples(cs: &[PathCandidateDto]) -> Vec<(String, String, String)> {
    cs.iter().map(|c| (c.path.clone(), c.folder_name.clone(), c.base_path.clone())).collect()
}

#[test]
fn scanning_twice_gives_identical_ordered_results() {
    let make = || {
        plain_snapshot(vec![
            (
                "Documents".to_string(),
                dir(
                    "/d",
                    "d",
                    &[],
                    vec![save_dir("/d/Zeta", "Zeta"), save_dir("/d/Alpha", "Alpha")],
                ),
            ),
            ("AppData".to_string(), dir("/a", "a", &[], vec![save_dir("/a/Mid", "Mid")])),
        ])
    };
    let first = scan_candidates(&make());
    let second = scan_candidates(&make());
    assert_eq!(cand_triples(&first), cand_triples(&second));
    assert_eq!(first.len(), 3);
}

#[test]
fn case_differing_paths_yield_one_candidate() {
    // Two base locations resolving to paths differing only by case: one candidate.
    let snapshot = plain_snapshot(vec![
        ("Documents".to_string(), dir("/d", "d", &[], vec![save_dir("C:\\Games\\Foo", "Foo")])),
        ("AppData".to_string(), dir("/a", "a", &[], vec![save_dir("c:\\games\\foo", "foo")])),
    ]);
    let cands = scan_candidates(&snapshot);
    assert_eq!(cands.len(), 1);
    // First occurrence wins.
    assert_eq!(cands[0].path, "C:\\Games\\Foo");
    assert_eq!(cands[0].base_path, "Documents");
}

#[test]
fn output_is_sorted_by_label_then_folder() {
    let snapshot = plain_snapshot(vec![
        (
            "ZLabel".to_string(),
            dir("/z", "z", &[], vec![save_dir("/z/b", "b"), save_dir("/z/a", "a")]),
        ),
        ("ALabel".to_string(), dir("/q", "q", &[], vec![save_dir("/q/x", "x")])),
    ]);
    let cands = scan_candidates(&snapshot);
    let triples = cand_triples(&cands);
    assert_eq!(
        triples,
        vec![
            ("/q/x".to_string(), "x".to_string(), "ALabel".to_string()),
            ("/z/a".to_string(), "a".to_string(), "ZLabel".to_string()),
            ("/z/b".to_string(), "b".to_string(), "ZLabel".to_string()),
        ]
    );
}

#[test]
fn excluded_and_hidden_subdirs_are_skipped() {
    let mut candidates = Vec::new();
    let mut seen = Vec::new();
    let base = dir(
        "/b",
        "b",
        &[],
        vec![
            save_dir("/b/Steam", "Steam"),
            save_dir("/b/.hidden", ".hidden"),
            save_dir("/b/Good", "Good"),
        ],
    );
    scan_base_paths(&base, "Documents", &mut candidates, &mut seen);
    assert_eq!(candidates.len(), 1);
    assert_eq!(candidates[0].folder_name, "Good");
}

#[test]
fn userdata_scan_prefers_remote_and_requires_numeric_names() {
    let userdata = dir(
        "/s/userdata",
        "userdata",
        &[],
        vec![
            dir(
                "/s/userdata/111",
                "111",
                &[],
                vec![
                    dir(
                        "/s/userdata/111/400",
                        "400",
                        &[],
                        vec![save_dir("/s/userdata/111/400/remote", "remote")],
                    ),
                    save_dir("/s/userdata/111/500", "500"),
                    save_dir("/s/userdata/111/notnum", "notnum"),
                ],
            ),
            dir("/s/userdata/abc", "abc", &[], vec![save_dir("/s/userdata/abc/600", "600")]),
        ],
    );
    let cands = find_steam_userdata_candidates(&userdata);
    let triples = cand_triples(&cands);
    assert_eq!(
        triples,
        vec![
            (
                "/s/userdata/111/400/remote".to_string(),
                "Steam App 400".to_string(),
                "Steam userdata (111)".to_string(),
            ),
            (
                "/s/userdata/111/500".to_string(),
                "Steam App 500".to_string(),
                "Steam userdata (111)".to_string(),
            ),
        ]
    );
}

#[test]
fn library_scan_labels_candidates_with_the_library_path() {
    let common = dir("/lib/steamapps/common", "common", &[], vec![save_dir("/lib/x", "Game X")]);
    let cands = find_steam_library_candidates(&common, "/lib");
    assert_eq!(cands.len(), 1);
    assert_eq!(cands[0].base_path, "Steam Library (/lib)");
    assert_eq!(cands[0].folder_name, "Game X");
}

#[test]
fn steam_candidates_merge_with_earlier_ones() {
    let snapshot = ScanSnapshot {
        bases: vec![(
            "Documents".to_string(),
            dir("/d", "d", &[], vec![save_dir("/lib/x", "Game X")]),
        )],
        steam: Some(SteamScan {
            userdata: None,
            root_common: Some(dir("/lib/steamapps/common", "common", &[], vec![save_dir(
                "/LIB/X", "X",
            )])),
            root_path: "/lib".to_string(),
            libraries: vec![],
        }),
        cracks: vec![],
        customs: vec![],
    };
    // "/LIB/X" deduplicates against "/lib/x" seen under Documents.
    let cands = scan_candidates(&snapshot);
    assert_eq!(cands.len(), 1);
    assert_eq!(cands[0].base_path, "Documents");
}

#[test]
fn crack_scan_builds_labels_and_skips_settings() {
    let mut candidates = Vec::new();
    let mut seen = Vec::new();
    let locations = vec![CrackLocation {
        label: "Goldberg".to_string(),
        base_path: "/appdata/Goldberg SteamEmu Saves".to_string(),
        tree: dir(
            "/appdata/Goldberg SteamEmu Saves",
            "Goldberg SteamEmu Saves",
            &[],
            vec![
                save_dir("/appdata/Goldberg SteamEmu Saves/480", "480"),
                save_dir("/appdata/Goldberg SteamEmu Saves/settings", "settings"),
            ],
        ),
    }];
    scan_cracks(&locations, &mut candidates, &mut seen);
    assert_eq!(candidates.len(), 1);
    assert_eq!(candidates[0].folder_name, "Goldberg — 480");
    assert_eq!(
        candidates[0].base_path,
        "Goldberg (/appdata/Goldberg SteamEmu Saves)"
    );
}

#[test]
fn system_root_detection_uses_environment() {
    let env = vec![("SystemDrive".to_string(), "D:".to_string())];
    assert!(is_system_root("D:\\", &env));
    assert!(is_system_root("d:\\", &env));
    assert!(!is_system_root("D:\\Games", &env));
    let empty: Vec<(String, String)> = vec![];
    assert!(is_system_root("C:\\", &empty));
}

#[test]
fn template_lists_match_the_platforms() {
    let win = base_path_templates(true);
    assert_eq!(win.len(), 6);
    assert_eq!(win[0].0, "%USERPROFILE%\\Documents\\My Games");
    assert_eq!(win[0].1, "Documents/My Games");
    let unix = base_path_templates(false);
    assert_eq!(unix.len(), 3);
    assert_eq!(unix[1].0, "~/.config");
    let cracks = crack_save_locations();
    assert_eq!(cracks.len(), 8);
    assert_eq!(cracks[2].0, "%APPDATA%\\Goldberg SteamEmu Saves");
    assert_eq!(cracks[2].1, "Goldberg");
}
