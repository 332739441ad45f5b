use sync_games::conflict::{
    check_conflicts, local_stats, newest_cloud_instant, parse_timestamp, ConflictCheckItem,
    Instant,
};
use sync_games::sync::{remote_info_from_records, RemoteSaveDto};

fn item(filename: &str, cloud: &str, local: Option<Instant>) -> ConflictCheckItem {
    ConflictCheckItem {
        filename: filename.to_string(),
        cloud_modified: cloud.to_string(),
        local,
    }
}

#[test]
fn rfc3339_parsing_gives_the_epoch_instant() {
    let t = parse_timestamp("2024-01-01T00:00:00Z").unwrap();
    assert_eq!(t.secs, 1704067200);
    assert_eq!(t.nanos, 0);
    let u = parse_timestamp("2024-01-01T00:00:00.250+01:00").unwrap();
    assert_eq!(u.secs, 1704063600);
    assert_eq!(u.nanos, 250_000_000);
}

#[test]
fn rfc2822_is_accepted_as_a_fallback() {
    let t = parse_timestamp("Mon, 01 Jan 2024 00:00:00 +0000").unwrap();
    assert_eq!(t.secs, 1704067200);
    assert!(parse_timestamp("not a timestamp").is_none());
}

#[test]
fn newer_local_file_is_one_conflict_older_is_none() {
    let local = parse_timestamp("2024-01-02T00:00:00Z").unwrap();
    let r = check_conflicts(vec![item("slot1.sav", "2024-01-01T00:00:00Z", Some(local))]);
    assert_eq!(r.conflicts.len(), 1);
    assert_eq!(r.conflicts[0].filename, "slot1.sav");
    assert_eq!(r.conflicts[0].cloud_modified, "2024-01-01T00:00:00Z");
    assert_eq!(r.conflicts[0].local_modified, "2024-01-02T00:00:00+00:00");

    // Reversed timestamps: no conflict.
    let older = parse_timestamp("2024-01-01T00:00:00Z").unwrap();
    let r2 = check_conflicts(vec![item("slot1.sav", "2024-01-02T00:00:00Z", Some(older))]);
    assert_eq!(r2.conflicts.len(), 0);
}

#[test]
fn equal_instants_are_no_conflict() {
    let same = parse_timestamp("2024-01-01T00:00:00Z").unwrap();
    let r = check_conflicts(vec![item("a", "2024-01-01T00:00:00Z", Some(same))]);
    assert_eq!(r.conflicts.len(), 0);
}

#[test]
fn missing_local_file_or_bad_timestamp_is_no_conflict() {
    let local = parse_timestamp("2024-01-02T00:00:00Z").unwrap();
    let r = check_conflicts(vec![
        item("a", "2024-01-01T00:00:00Z", None),
        item("b", "garbage", Some(local)),
    ]);
    assert_eq!(r.conflicts.len(), 0);
}

#[test]
fn local_stats_sum_sizes_and_keep_the_newest_instant() {
    let e1 = Instant { secs: 100, nanos: 0 };
    let e2 = Instant { secs: 100, nanos: 5 };
    let e3 = Instant { secs: 50, nanos: 9 };
    let (total, newest) = local_stats(&vec![(10, e1), (20, e2), (30, e3)]);
    assert_eq!(total, 60);
    assert_eq!(newest.unwrap(), e2);
    let (zero, none) = local_stats(&vec![]);
    assert_eq!(zero, 0);
    assert!(none.is_none());
}

#[test]
fn size_sum_saturates_instead_of_wrapping() {
    let e = Instant { secs: 0, nanos: 0 };
    let (total, _) = local_stats(&vec![(u64::MAX, e), (5, e)]);
    assert_eq!(total, u64::MAX);
}

#[test]
fn newest_cloud_change_is_per_game_and_skips_unparseable() {
    let infos = remote_info_from_records(vec![
        RemoteSaveDto {
            game_id: "G".to_string(),
            key: "u/G/a".to_string(),
            last_modified: "2024-01-01T00:00:00Z".to_string(),
            size: None,
        },
        RemoteSaveDto {
            game_id: "g".to_string(),
            key: "u/g/b".to_string(),
            last_modified: "2024-03-01T00:00:00Z".to_string(),
            size: None,
        },
        RemoteSaveDto {
            game_id: "g".to_string(),
            key: "u/g/c".to_string(),
            last_modified: "broken".to_string(),
            size: None,
        },
        RemoteSaveDto {
            game_id: "other".to_string(),
            key: "u/other/d".to_string(),
            last_modified: "2024-06-01T00:00:00Z".to_string(),
            size: None,
        },
    ]);
    let newest = newest_cloud_instant(&infos, "g").unwrap();
    let expected = parse_timestamp("2024-03-01T00:00:00Z").unwrap();
    assert_eq!(newest, expected);
    assert!(newest_cloud_instant(&infos, "missing").is_none());
}
