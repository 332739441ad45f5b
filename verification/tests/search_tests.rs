use sync_games::search::{extract_app_id, steam_appdetails_url, steam_suggest_url, validate_app_id};

#[test]
fn app_id_validation_trims_and_requires_digits() {
    assert_eq!(validate_app_id(" 440 ").unwrap(), "440");
    assert!(validate_app_id("44a0").is_none());
    assert!(validate_app_id("   ").is_none());
}

#[test]
fn details_url_carries_the_identifier() {
    assert_eq!(
        steam_appdetails_url("440"),
        "https://store.steampowered.com/api/appdetails?appids=440"
    );
}

#[test]
fn suggest_url_encodes_the_dashed_query() {
    // Dashes become spaces; the encoder percent-encodes them.
    let u = steam_suggest_url("elden-ring").unwrap();
    assert_eq!(
        u,
        "https://store.steampowered.com/search/suggest?term=elden%20ring&f=games&cc=US&l=english"
    );
    assert!(steam_suggest_url("   ").is_none());
}

#[test]
fn first_store_link_yields_the_identifier() {
    let body = "<a href=\"https://store.steampowered.com/app/1245620/ELDEN_RING/\">x</a>\
                <a href=\"https://store.steampowered.com/app/2345678/Other/\">y</a>";
    assert_eq!(extract_app_id(body).unwrap(), "1245620");
}

#[test]
fn too_short_or_unclosed_runs_are_skipped() {
    // Three digits: too short; the later valid link is found.
    let body = "/app/123/ then /app/45678/";
    assert_eq!(extract_app_id(body).unwrap(), "45678");
    // Digits not followed by a slash do not match.
    assert!(extract_app_id("/app/123456 end").is_none());
    // Eleven digits: too long.
    assert!(extract_app_id("/app/12345678901/").is_none());
}
