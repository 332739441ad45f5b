use sync_games::expand::{expand_env_vars, expand_path, normalize_path};

fn env(pairs: &[(&str, &str)]) -> Vec<(String, String)> {
    pairs.iter().map(|(k, v)| (k.to_string(), v.to_string())).collect()
}

#[test]
fn expands_environment_tokens() {
    let e = env(&[("APPDATA", "C:\\Users\\ana\\AppData\\Roaming")]);
    let r = expand_path("%APPDATA%\\CODEX", &e, &None);
    assert_eq!(r.unwrap(), "C:\\Users\\ana\\AppData\\Roaming\\CODEX");
}

#[test]
fn unset_token_becomes_empty() {
    let e = env(&[]);
    let r = expand_path("a%MISSING%b", &e, &None);
    assert_eq!(r.unwrap(), "ab");
}

#[test]
fn fully_empty_result_is_none() {
    let e = env(&[]);
    assert!(expand_path("%MISSING%", &e, &None).is_none());
    assert!(expand_path("", &e, &None).is_none());
}

#[test]
fn tilde_expands_to_home() {
    let e = env(&[]);
    let home = Some("/home/ana".to_string());
    assert_eq!(expand_path("~/saves", &e, &home).unwrap(), "/home/ana/saves");
    assert_eq!(expand_path("~", &e, &home).unwrap(), "/home/ana");
}

#[test]
fn tilde_join_strips_trailing_separators() {
    let e = env(&[]);
    let home = Some("/home/ana/".to_string());
    assert_eq!(expand_path("~/saves", &e, &home).unwrap(), "/home/ana/saves");
}

#[test]
fn tilde_without_home_is_kept_unless_it_stands_alone() {
    let e = env(&[]);
    assert_eq!(expand_path("~/saves", &e, &None).unwrap(), "~/saves");
    // The home shorthand alone cannot be resolved without a home directory.
    assert!(expand_path("~", &e, &None).is_none());
    assert!(expand_path("~", &e, &Some(String::new())).is_none());
}

#[test]
fn first_env_binding_wins() {
    let e = env(&[("X", "one"), ("X", "two")]);
    assert_eq!(expand_path("%X%", &e, &None).unwrap(), "one");
}

#[test]
fn known_var_expansion_keeps_unknown_tokens() {
    let e = env(&[("LOCALAPPDATA", "C:\\L")]);
    assert_eq!(expand_env_vars("%LOCALAPPDATA%\\x", &e), "C:\\L\\x");
    assert_eq!(expand_env_vars("%NOPE%\\x", &e), "%NOPE%\\x");
}

#[test]
fn normalize_path_expands_known_tokens() {
    let e = env(&[("USERPROFILE", "C:\\Users\\ana")]);
    assert_eq!(normalize_path("%USERPROFILE%\\Saved Games", &e), "C:\\Users\\ana\\Saved Games");
}

#[test]
fn empty_delimiters_do_not_eat_later_tokens() {
    // A "%%" pair is no token; its second "%" may open the next one.
    let e = env(&[("A", "v")]);
    assert_eq!(expand_path("%%A%", &e, &None).unwrap(), "%v");
}
