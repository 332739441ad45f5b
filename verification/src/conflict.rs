//! Conflict detector and per-game statistics. Timestamps are modelled as
//! plain instants — seconds and nanoseconds since the epoch, UTC — so the
//! comparison that decides a conflict is a pure function; only the parsing
//! and formatting of timestamp text is delegated to an outside library.

use vstd::prelude::*;

use crate::sync::RemoteSaveInfoDto;
use crate::text::{chars_of, eq_chars, lower, lower_chars};

verus! {

/// A timezone-independent instant: seconds since the epoch, and the
/// nanoseconds within that second.
#[derive(Clone, Copy, Debug, PartialEq, Eq, Structural)]
pub struct Instant {
    pub secs: i64,
    pub nanos: u32,
}

/// Strict order on instants: by seconds, then by nanoseconds.
pub open spec fn instant_lt(a: Instant, b: Instant) -> bool {
    a.secs < b.secs || (a.secs == b.secs && a.nanos < b.nanos)
}

/// True when `a` is strictly earlier than `b`.
pub fn instant_before(a: &Instant, b: &Instant) -> (r: bool)
    ensures
        r == instant_lt(*a, *b),
{
    a.secs < b.secs || (a.secs == b.secs && a.nanos < b.nanos)
}

/// The instant an RFC 3339 timestamp text denotes, if it parses.
pub uninterp spec fn rfc3339_instant_of(s: Seq<char>) -> Option<(i64, u32)>;

/// The instant an RFC 2822 timestamp text denotes, if it parses.
pub uninterp spec fn rfc2822_instant_of(s: Seq<char>) -> Option<(i64, u32)>;

/// The RFC 3339 rendering of an instant, when the instant is representable.
pub uninterp spec fn rfc3339_text_of(secs: int, nanos: int) -> Option<Seq<char>>;

/// Relies on chrono's `DateTime::parse_from_rfc3339` and the `timestamp` /
/// `timestamp_subsec_nanos` accessors: the parsed instant is a function of
/// the text alone, independent of machine and timezone.
#[verifier::external_body]
fn parse_rfc3339(s: &str) -> (r: Option<(i64, u32)>)
    ensures
        r == rfc3339_instant_of(s@),
{
    match chrono::DateTime::parse_from_rfc3339(s) {
        Ok(dt) => Some((dt.timestamp(), dt.timestamp_subsec_nanos())),
        Err(_) => None,
    }
}

/// Relies on chrono's `DateTime::parse_from_rfc2822` and the `timestamp` /
/// `timestamp_subsec_nanos` accessors: the parsed instant is a function of
/// the text alone.
#[verifier::external_body]
fn parse_rfc2822(s: &str) -> (r: Option<(i64, u32)>)
    ensures
        r == rfc2822_instant_of(s@),
{
    match chrono::DateTime::parse_from_rfc2822(s) {
        Ok(dt) => Some((dt.timestamp(), dt.timestamp_subsec_nanos())),
        Err(_) => None,
    }
}

/// Relies on chrono's `DateTime::from_timestamp` and `to_rfc3339`: whether
/// the instant is representable, and its rendering, are functions of the
/// instant alone.
#[verifier::external_body]
fn format_rfc3339(secs: i64, nanos: u32) -> (r: Option<String>)
    ensures
        (r is Some) == (rfc3339_text_of(secs as int, nanos as int) is Some),
        r matches Some(s) ==> rfc3339_text_of(secs as int, nanos as int) == Some(s@),
{
    chrono::DateTime::from_timestamp(secs, nanos).map(|dt| dt.to_rfc3339())
}

/// The instant a remote timestamp text denotes: its RFC 3339 reading, or
/// failing that its RFC 2822 reading.
pub open spec fn instant_of_text(s: Seq<char>) -> Option<(i64, u32)> {
    match rfc3339_instant_of(s) {
        Option::Some(v) => Option::Some(v),
        Option::None => rfc2822_instant_of(s),
    }
}

/// Parses a remote timestamp, accepting the two formats the server emits.
pub fn parse_timestamp(s: &str) -> (r: Option<Instant>)
    ensures
        match r {
            Some(t) => instant_of_text(s@) == Option::Some((t.secs, t.nanos)),
            None => instant_of_text(s@) is None,
        },
{
    match parse_rfc3339(s) {
        Some(v) => Some(Instant { secs: v.0, nanos: v.1 }),
        None => match parse_rfc2822(s) {
            Some(v) => Some(Instant { secs: v.0, nanos: v.1 }),
            None => None,
        },
    }
}

/// One record to check for a download conflict: the display filename, the
/// remote timestamp text, and the local file's modification instant, absent
/// when the local file does not exist.
pub struct ConflictCheckItem {
    pub filename: String,
    pub cloud_modified: String,
    pub local: Option<Instant>,
}

/// One detected conflict: downloading this file would overwrite newer local
/// data.
pub struct DownloadConflictDto {
    pub filename: String,
    pub local_modified: String,
    pub cloud_modified: String,
}

/// The detected conflicts, as one list.
pub struct DownloadConflictsResultDto {
    pub conflicts: Vec<DownloadConflictDto>,
}

/// The view of a conflict record.
pub open spec fn conflict_view(c: DownloadConflictDto) -> (Seq<char>, Seq<char>, Seq<char>) {
    (c.filename@, c.local_modified@, c.cloud_modified@)
}

/// The views of a conflict list.
pub open spec fn conflicts_view(cs: Seq<DownloadConflictDto>) -> Seq<(Seq<char>, Seq<char>, Seq<char>)> {
    Seq::new(cs.len(), |i: int| conflict_view(cs[i]))
}

/// The conflict one record yields, if any: the local file exists, the
/// remote timestamp parses, the local instant is representable, and the
/// local instant is strictly later than the remote one. A missing local
/// file or an unparseable remote timestamp is no conflict.
pub open spec fn conflict_of(
    filename: Seq<char>,
    cloud_modified: Seq<char>,
    local: Option<Instant>,
) -> Option<(Seq<char>, Seq<char>, Seq<char>)> {
    match local {
        Option::None => Option::None,
        Option::Some(l) => match instant_of_text(cloud_modified) {
            Option::None => Option::None,
            Option::Some(c) => match rfc3339_text_of(l.secs as int, l.nanos as int) {
                Option::None => Option::None,
                Option::Some(lt) => if instant_lt(
                    Instant { secs: c.0, nanos: c.1 },
                    l,
                ) {
                    Option::Some((filename, lt, cloud_modified))
                } else {
                    Option::None
                },
            },
        },
    }
}

/// The conflicts of a record list, in order.
pub open spec fn conflicts_of(items: Seq<(Seq<char>, Seq<char>, Option<Instant>)>) -> Seq<
    (Seq<char>, Seq<char>, Seq<char>),
>
    decreases items.len(),
{
    if items.len() == 0 {
        Seq::empty()
    } else {
        conflicts_of(items.drop_last()) + match conflict_of(
            items.last().0,
            items.last().1,
            items.last().2,
        ) {
            Option::Some(c) => seq![c],
            Option::None => Seq::<(Seq<char>, Seq<char>, Seq<char>)>::empty(),
        }
    }
}

/// The view of one check item.
pub open spec fn item_view(it: ConflictCheckItem) -> (Seq<char>, Seq<char>, Option<Instant>) {
    (it.filename@, it.cloud_modified@, it.local)
}

/// The views of a check list.
pub open spec fn items_view(its: Seq<ConflictCheckItem>) -> Seq<
    (Seq<char>, Seq<char>, Option<Instant>),
> {
    Seq::new(its.len(), |i: int| item_view(its[i]))
}

/// Flags every record whose local file is strictly newer than the remote
/// copy: downloading it would silently discard newer local data. Records
/// without a local file or without a parseable remote timestamp are no
/// conflicts.
pub fn check_conflicts(items: Vec<ConflictCheckItem>) -> (r: DownloadConflictsResultDto)
    ensures
        conflicts_view(r.conflicts@) == conflicts_of(items_view(items@)),
{
    let ghost orig = items_view(items@);
    let mut rest = items;
    let mut out: Vec<DownloadConflictDto> = Vec::new();
    let ghost mut done: int = 0;
    while rest.len() > 0
        invariant
            0 <= done,
            done + rest@.len() == orig.len(),
            items_view(rest@) =~= orig.skip(done),
            conflicts_view(out@) == conflicts_of(orig.take(done)),
        decreases rest@.len(),
    {
        let ghost before = items_view(rest@);
        let it = rest.remove(0);
        proof {
            assert(before =~= seq![item_view(it)] + items_view(rest@));
            assert(item_view(it) == orig[done]) by {
                assert(before[0] == item_view(it));
                assert(orig.skip(done)[0] == orig[done]);
            }
            assert(items_view(rest@) =~= orig.skip(done + 1)) by {
                assert forall|k: int| 0 <= k < items_view(rest@).len() implies items_view(
                    rest@,
                )[k] == orig.skip(done + 1)[k] by {
                    assert(before[k + 1] == items_view(rest@)[k]);
                    assert(before[k + 1] == orig.skip(done)[k + 1]);
                    assert(orig.skip(done)[k + 1] == orig[done + 1 + k]);
                }
            }
            assert(orig.take(done + 1).drop_last() =~= orig.take(done));
            assert(orig.take(done + 1).last() == orig[done]);
        }
        match it.local {
            Some(l) => match parse_timestamp(it.cloud_modified.as_str()) {
                Some(c) => match format_rfc3339(l.secs, l.nanos) {
                    Some(local_text) => {
                        if instant_before(&c, &l) {
                            let d = DownloadConflictDto {
                                filename: it.filename,
                                local_modified: local_text,
                                cloud_modified: it.cloud_modified,
                            };
                            out.push(d);
                            proof {
                                assert(conflicts_view(out@) =~= conflicts_of(orig.take(done))
                                    + seq![conflict_of(orig[done].0, orig[done].1, orig[done].2).unwrap()]);
                            }
                        } else {
                            proof {
                                assert(conflicts_view(out@) =~= conflicts_of(orig.take(done + 1)));
                            }
                        }
                    },
                    None => {
                        proof {
                            assert(conflicts_view(out@) =~= conflicts_of(orig.take(done + 1)));
                        }
                    },
                },
                None => {
                    proof {
                        assert(conflicts_view(out@) =~= conflicts_of(orig.take(done + 1)));
                    }
                },
            },
            None => {
                proof {
                    assert(conflicts_view(out@) =~= conflicts_of(orig.take(done + 1)));
                }
            },
        }
        proof {
            done = done + 1;
        }
    }
    proof {
        assert(orig.take(orig.len() as int) =~= orig);
    }
    DownloadConflictsResultDto { conflicts: out }
}

/// A strictly newer local instant is flagged, an older or equal one is not:
/// for a record whose local file exists, whose remote timestamp parses and
/// whose local instant is representable, the record yields a conflict if
/// and only if the local instant is strictly later than the remote one.
pub proof fn lemma_conflict_is_strictly_newer(
    filename: Seq<char>,
    cloud_modified: Seq<char>,
    l: Instant,
    c: (i64, u32),
)
    requires
        instant_of_text(cloud_modified) == Option::Some(c),
        rfc3339_text_of(l.secs as int, l.nanos as int) is Some,
    ensures
        (conflict_of(filename, cloud_modified, Option::Some(l)) is Some) == instant_lt(
            Instant { secs: c.0, nanos: c.1 },
            l,
        ),
{
}

/// Per-game statistics: local size on disk, newest local change, newest
/// cloud change.
pub struct GameStatsDto {
    pub game_id: String,
    pub local_size_bytes: u64,
    pub local_last_modified: Option<String>,
    pub cloud_last_modified: Option<String>,
}

/// Sum of local file sizes, saturating at the integer's top.
pub open spec fn sizes_sum(entries: Seq<(u64, Instant)>) -> int
    decreases entries.len(),
{
    if entries.len() == 0 {
        0
    } else {
        let p = sizes_sum(entries.drop_last()) + entries.last().0;
        if p > u64::MAX {
            u64::MAX as int
        } else {
            p
        }
    }
}

/// The newest instant among the entries, if any.
pub open spec fn newest_of(entries: Seq<(u64, Instant)>) -> Option<Instant>
    decreases entries.len(),
{
    if entries.len() == 0 {
        Option::None
    } else {
        match newest_of(entries.drop_last()) {
            Option::None => Option::Some(entries.last().1),
            Option::Some(m) => if instant_lt(m, entries.last().1) {
                Option::Some(entries.last().1)
            } else {
                Option::Some(m)
            },
        }
    }
}

/// Folds enumerated local files — size and modification instant each — into
/// the total size (saturating) and the newest modification instant.
pub fn local_stats(entries: &Vec<(u64, Instant)>) -> (r: (u64, Option<Instant>))
    ensures
        r.0 == sizes_sum(entries@),
        r.1 == newest_of(entries@),
{
    let mut total: u64 = 0;
    let mut newest: Option<Instant> = None;
    let mut i: usize = 0;
    while i < entries.len()
        invariant
            i <= entries@.len(),
            total == sizes_sum(entries@.take(i as int)),
            newest == newest_of(entries@.take(i as int)),
        decreases entries@.len() - i,
    {
        let e = entries[i];
        proof {
            assert(entries@.take(i as int + 1).drop_last() =~= entries@.take(i as int));
            assert(entries@.take(i as int + 1).last() == entries@[i as int]);
            lemma_sizes_sum_bounds(entries@.take(i as int));
        }
        if total <= u64::MAX - e.0 {
            total = total + e.0;
        } else {
            total = u64::MAX;
        }
        newest = match newest {
            Some(m) => {
                if instant_before(&m, &e.1) {
                    Some(e.1)
                } else {
                    Some(m)
                }
            },
            None => Some(e.1),
        };
        i += 1;
    }
    proof {
        assert(entries@.take(entries@.len() as int) =~= entries@);
    }
    (total, newest)
}

/// The saturating sum stays within the integer's range.
proof fn lemma_sizes_sum_bounds(entries: Seq<(u64, Instant)>)
    ensures
        0 <= sizes_sum(entries) <= u64::MAX,
    decreases entries.len(),
{
    if entries.len() > 0 {
        lemma_sizes_sum_bounds(entries.drop_last());
    }
}

/// The newest parsed remote timestamp among one game's records, matched
/// case-insensitively.
pub open spec fn newest_cloud_of(
    rs: Seq<(Seq<char>, Seq<char>, Seq<char>, Seq<char>, Option<u64>)>,
    game_id: Seq<char>,
) -> Option<Instant>
    decreases rs.len(),
{
    if rs.len() == 0 {
        Option::None
    } else {
        let p = newest_cloud_of(rs.drop_last(), game_id);
        if lower(rs.last().0) == lower(game_id) {
            match instant_of_text(rs.last().3) {
                Option::Some(v) => {
                    let t = Instant { secs: v.0, nanos: v.1 };
                    match p {
                        Option::None => Option::Some(t),
                        Option::Some(m) => if instant_lt(m, t) {
                            Option::Some(t)
                        } else {
                            Option::Some(m)
                        },
                    }
                },
                Option::None => p,
            }
        } else {
            p
        }
    }
}

/// The newest cloud change of one game: the latest parseable remote
/// timestamp among its records.
pub fn newest_cloud_instant(records: &Vec<RemoteSaveInfoDto>, game_id: &str) -> (r: Option<
    Instant,
>)
    ensures
        r == newest_cloud_of(crate::sync::infos_view(records@), game_id@),
{
    let target = lower_chars(&chars_of(game_id));
    let ghost rv = crate::sync::infos_view(records@);
    let mut newest: Option<Instant> = None;
    let mut i: usize = 0;
    while i < records.len()
        invariant
            i <= records@.len(),
            rv == crate::sync::infos_view(records@),
            rv.len() == records@.len(),
            target@ == lower(game_id@),
            newest == newest_cloud_of(rv.take(i as int), game_id@),
        decreases records@.len() - i,
    {
        let rec: &RemoteSaveInfoDto = &records[i];
        proof {
            assert(rv.take(i as int + 1).drop_last() =~= rv.take(i as int));
            assert(rv.take(i as int + 1).last() == rv[i as int]);
        }
        let gid = lower_chars(&chars_of(rec.game_id.as_str()));
        if eq_chars(&gid, &target) {
            match parse_timestamp(rec.last_modified.as_str()) {
                Some(t) => {
                    newest = match newest {
                        Some(m) => {
                            if instant_before(&m, &t) {
                                Some(t)
                            } else {
                                Some(m)
                            }
                        },
                        None => Some(t),
                    };
                },
                None => {},
            }
        }
        i += 1;
    }
    proof {
        assert(rv.take(rv.len() as int) =~= rv);
    }
    newest
}

} // verus!
