use sync_games::classify::{
    folder_contains_save_like_files, is_excluded_folder, is_strong_save_file, is_weak_save_file,
    name_hints_save,
};
use sync_games::tree::{collect_files, contains_saves_at_any_depth, dir_save_like, DirTree};

fn names(v: &[&str]) -> Vec<String> {
    v.iter().map(|s| s.to_string()).collect()
}

fn dir(path: &str, name: &str, files: &[&str], subdirs: Vec<DirTree>) -> DirTree {
    DirTree { path: path.to_string(), name: name.to_string(), files: names(files), subdirs }
}

#[test]
fn strong_extension_classifies_alone() {
    // One strong-extension file classifies the directory, whatever else it holds.
    assert!(folder_contains_save_like_files(&names(&[
        "readme.txt", "music.ogg", "slot1.sav", "shader.bin"
    ])));
    assert!(folder_contains_save_like_files(&names(&["GAME.SAVE"])));
    assert!(folder_contains_save_like_files(&names(&["x.sl2"])));
    assert!(folder_contains_save_like_files(&names(&["x.state"])));
}

#[test]
fn strong_extension_followed_by_backup_suffix_counts() {
    assert!(is_strong_save_file("quick.sav.bak"));
    assert!(is_strong_save_file("old.save.1"));
    assert!(!is_strong_save_file("savegame.txt"));
}

#[test]
fn two_weak_files_are_not_enough_three_are() {
    // Exactly 2 weak-extension files without hints: not save-like.
    assert!(!folder_contains_save_like_files(&names(&["a.dat", "b.bin"])));
    // At 3 or more, save-like.
    assert!(folder_contains_save_like_files(&names(&["a.dat", "b.bin", "c.bak"])));
    assert!(folder_contains_save_like_files(&names(&["a.dat", "b.bin", "c.bak", "d.dat"])));
}

#[test]
fn weak_file_with_hint_short_circuits() {
    assert!(folder_contains_save_like_files(&names(&["autosave.dat"])));
    assert!(folder_contains_save_like_files(&names(&["readme.txt", "slot_2.bin"])));
    assert!(!folder_contains_save_like_files(&names(&["readme.txt", "texture.bin"])));
}

#[test]
fn weak_and_hint_helpers() {
    assert!(is_weak_save_file("foo.DAT"));
    assert!(is_weak_save_file("foo.bak"));
    assert!(!is_weak_save_file("foo.dat.txt"));
    assert!(name_hints_save("Checkpoint07.bin"));
    assert!(name_hints_save("PLAYERDATA.dat"));
    assert!(!name_hints_save("texture.bin"));
}

#[test]
fn excluded_folders_by_exact_name() {
    assert!(is_excluded_folder("Windows"));
    assert!(is_excluded_folder("  node_modules  "));
    assert!(is_excluded_folder("Epic Games"));
    assert!(!is_excluded_folder("My Fine Game"));
}

#[test]
fn excluded_folders_by_substring() {
    assert!(is_excluded_folder("Game Backup Tool"));
    assert!(is_excluded_folder("vcredist_x64"));
    assert!(is_excluded_folder("DirectX Redist"));
    assert!(!is_excluded_folder("Backs"));
}

#[test]
fn classifier_sees_one_level_into_visible_subdirs() {
    let t = dir(
        "/g",
        "g",
        &["readme.txt"],
        vec![
            dir("/g/sub", "sub", &["slot1.sav"], vec![]),
        ],
    );
    assert!(dir_save_like(&t));
    // A hidden subdirectory's files are not seen.
    let h = dir(
        "/g",
        "g",
        &["readme.txt"],
        vec![
            dir("/g/.hidden", ".hidden", &["slot1.sav"], vec![]),
        ],
    );
    assert!(!dir_save_like(&h));
    // Two levels down is out of the classifier's sight.
    let deep = dir(
        "/g",
        "g",
        &[],
        vec![dir("/g/a", "a", &[], vec![dir("/g/a/b", "b", &["slot1.sav"], vec![])])],
    );
    assert!(!dir_save_like(&deep));
}

#[test]
fn collect_files_gathers_own_and_subdir_files() {
    let t = dir(
        "/g",
        "g",
        &["a.txt"],
        vec![
            dir("/g/s1", "s1", &["b.sav"], vec![]),
            dir("/g/.h", ".h", &["c.sav"], vec![]),
        ],
    );
    let fs = collect_files(&t);
    assert_eq!(fs, names(&["a.txt", "b.sav"]));
}

#[test]
fn deep_search_respects_depth_cap_and_settings_skip() {
    // Saves four levels down are found.
    let mut t = dir("/r", "r", &["save.sav"], vec![]);
    for i in 0..4 {
        t = dir(&format!("/r{}", i), &format!("r{}", i), &[], vec![t]);
    }
    assert!(contains_saves_at_any_depth(&t, 0));
    // Past the cap they are not.
    let mut deep = dir("/r", "r", &["save.sav"], vec![]);
    for i in 0..7 {
        deep = dir(&format!("/d{}", i), &format!("d{}", i), &[], vec![deep]);
    }
    assert!(!contains_saves_at_any_depth(&deep, 0));
    // Emulator settings folders are not recursed into. Their contents sit
    // two levels down, out of the root classifier's one-level sight.
    let inner = dir("/r/steam_settings/inner", "inner", &["slot.sav"], vec![]);
    let skipped = dir(
        "/r",
        "r",
        &[],
        vec![dir("/r/steam_settings", "steam_settings", &[], vec![inner])],
    );
    assert!(!contains_saves_at_any_depth(&skipped, 0));
    // The same shape under another name is found.
    let inner2 = dir("/r/other/inner", "inner", &["slot.sav"], vec![]);
    let found = dir("/r", "r", &[], vec![dir("/r/other", "other", &[], vec![inner2])]);
    assert!(contains_saves_at_any_depth(&found, 0));
}
