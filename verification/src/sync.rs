//! Sync protocol support: local file enumeration bookkeeping, remote record
//! shaping, and the per-file batch accounting for uploads and downloads.
//! The network requests themselves live in the surrounding application; it
//! hands this module the per-file outcomes, and every file is accounted for
//! in the result.

use vstd::prelude::*;

use crate::config::{blank, Config};
use crate::text::{
    chars_of, eq_chars, find_char, find_char_from, join3, lower, lower_chars, string_from_chars,
    sub_chars, trim_spec,
};

verus! {

broadcast use crate::text::lemma_find_char_bounds;

/// One local save file: its absolute path and its name relative to the
/// registered root, with forward slashes.
pub struct SaveFileDto {
    pub absolute: String,
    pub relative: String,
}

/// One remote save record as the API lists it.
pub struct RemoteSaveDto {
    pub game_id: String,
    pub key: String,
    pub last_modified: String,
    pub size: Option<u64>,
}

/// A remote record with its display filename derived from the object key.
pub struct RemoteSaveInfoDto {
    pub game_id: String,
    pub key: String,
    pub filename: String,
    pub last_modified: String,
    pub size: Option<u64>,
}

/// The outcome of one upload or download batch.
#[derive(Debug)]
pub struct SyncResultDto {
    pub ok_count: u32,
    pub err_count: u32,
    pub errors: Vec<String>,
}

/// The display filename of an object key: everything after the second `/`
/// (the first two segments encode user and game); a key with fewer than
/// three segments is its own filename.
pub open spec fn filename_of_key(key: Seq<char>) -> Seq<char> {
    match find_char_from(key, '/', 0) {
        Option::None => key,
        Option::Some(i) => match find_char_from(key, '/', i + 1) {
            Option::None => key,
            Option::Some(j) => key.skip(j + 1),
        },
    }
}

/// Derives the display filename from an object key.
pub fn filename_from_key(key: &str) -> (r: String)
    ensures
        r@ == filename_of_key(key@),
{
    let v = chars_of(key);
    let n: usize = v.len();
    match find_char(&v, '/', 0) {
        Option::None => string_from_chars(&v),
        Option::Some(i) => match find_char(&v, '/', i + 1) {
            Option::None => string_from_chars(&v),
            Option::Some(j) => {
                let rest = sub_chars(&v, j + 1, n);
                string_from_chars(&rest)
            },
        },
    }
}

/// The view of a remote record: game, key, filename, timestamp, size.
pub open spec fn info_view(s: RemoteSaveInfoDto) -> (
    Seq<char>,
    Seq<char>,
    Seq<char>,
    Seq<char>,
    Option<u64>,
) {
    (s.game_id@, s.key@, s.filename@, s.last_modified@, s.size)
}

/// The views of a remote record list.
pub open spec fn infos_view(s: Seq<RemoteSaveInfoDto>) -> Seq<
    (Seq<char>, Seq<char>, Seq<char>, Seq<char>, Option<u64>),
> {
    Seq::new(s.len(), |i: int| info_view(s[i]))
}

/// Shapes raw remote records for display: each gains the filename derived
/// from its key, everything else unchanged.
pub fn remote_info_from_records(records: Vec<RemoteSaveDto>) -> (r: Vec<RemoteSaveInfoDto>)
    ensures
        r@.len() == records@.len(),
        forall|i: int|
            0 <= i < r@.len() ==> {
                let s = records@[i];
                let d = #[trigger] r@[i];
                &&& d.game_id == s.game_id
                &&& d.key@ == s.key@
                &&& d.filename@ == filename_of_key(s.key@)
                &&& d.last_modified == s.last_modified
                &&& d.size == s.size
            },
{
    let ghost orig = records@;
    let mut rest = records;
    let mut out: Vec<RemoteSaveInfoDto> = Vec::new();
    let mut k: usize = 0;
    let total: usize = rest.len();
    while rest.len() > 0
        invariant
            total == orig.len(),
            k <= total,
            k + rest@.len() == orig.len(),
            rest@ == orig.skip(k as int),
            out@.len() == k,
            forall|i: int|
                0 <= i < k ==> {
                    let s = orig[i];
                    let d = #[trigger] out@[i];
                    &&& d.game_id == s.game_id
                    &&& d.key@ == s.key@
                    &&& d.filename@ == filename_of_key(s.key@)
                    &&& d.last_modified == s.last_modified
                    &&& d.size == s.size
                },
        decreases rest@.len(),
    {
        let s = rest.remove(0);
        proof {
            assert(rest@ =~= orig.skip(k as int + 1));
            assert(s == orig[k as int]);
        }
        let filename = filename_from_key(s.key.as_str());
        let d = RemoteSaveInfoDto {
            game_id: s.game_id,
            key: s.key,
            filename,
            last_modified: s.last_modified,
            size: s.size,
        };
        out.push(d);
        k += 1;
    }
    out
}

/// The records of one game, matched case-insensitively, in order.
pub open spec fn records_for_game(
    rs: Seq<(Seq<char>, Seq<char>, Seq<char>, Seq<char>, Option<u64>)>,
    game_id: Seq<char>,
) -> Seq<(Seq<char>, Seq<char>, Seq<char>, Seq<char>, Option<u64>)>
    decreases rs.len(),
{
    if rs.len() == 0 {
        Seq::empty()
    } else {
        records_for_game(rs.drop_last(), game_id) + if lower(rs.last().0) == lower(game_id) {
            seq![rs.last()]
        } else {
            Seq::<(Seq<char>, Seq<char>, Seq<char>, Seq<char>, Option<u64>)>::empty()
        }
    }
}

/// Keeps the records of one game, matched case-insensitively.
pub fn filter_records_for_game(records: Vec<RemoteSaveInfoDto>, game_id: &str) -> (r: Vec<
    RemoteSaveInfoDto,
>)
    ensures
        infos_view(r@) == records_for_game(infos_view(records@), game_id@),
{
    let target = lower_chars(&chars_of(game_id));
    let ghost orig = infos_view(records@);
    let mut rest = records;
    let mut out: Vec<RemoteSaveInfoDto> = Vec::new();
    let ghost mut done: int = 0;
    while rest.len() > 0
        invariant
            target@ == lower(game_id@),
            0 <= done,
            done + rest@.len() == orig.len(),
            infos_view(rest@) =~= orig.skip(done),
            infos_view(out@) == records_for_game(orig.take(done), game_id@),
        decreases rest@.len(),
    {
        let ghost before = infos_view(rest@);
        let s = rest.remove(0);
        proof {
            assert(before =~= seq![info_view(s)] + infos_view(rest@));
            assert(info_view(s) == orig[done]) by {
                assert(before[0] == info_view(s));
                assert(orig.skip(done)[0] == orig[done]);
            }
            assert(infos_view(rest@) =~= orig.skip(done + 1)) by {
                assert forall|k: int| 0 <= k < infos_view(rest@).len() implies infos_view(
                    rest@,
                )[k] == orig.skip(done + 1)[k] by {
                    assert(before[k + 1] == infos_view(rest@)[k]);
                    assert(before[k + 1] == orig.skip(done)[k + 1]);
                    assert(orig.skip(done)[k + 1] == orig[done + 1 + k]);
                }
            }
            assert(orig.take(done + 1).drop_last() =~= orig.take(done));
            assert(orig.take(done + 1).last() == orig[done]);
        }
        let gid = lower_chars(&chars_of(s.game_id.as_str()));
        if eq_chars(&gid, &target) {
            out.push(s);
            proof {
                assert(infos_view(out@) =~= records_for_game(orig.take(done), game_id@) + seq![
                    orig[done],
                ]);
            }
        } else {
            proof {
                assert(infos_view(out@) =~= records_for_game(orig.take(done), game_id@)
                    + Seq::<(Seq<char>, Seq<char>, Seq<char>, Seq<char>, Option<u64>)>::empty());
            }
        }
        proof {
            done = done + 1;
        }
    }
    proof {
        assert(orig.take(orig.len() as int) =~= orig);
    }
    out
}

/// The files kept by deduplication on absolute path: the first occurrence
/// of each absolute path wins.
pub open spec fn dedup_files_spec(fs: Seq<(Seq<char>, Seq<char>)>) -> Seq<(Seq<char>, Seq<char>)>
    decreases fs.len(),
{
    if fs.len() == 0 {
        Seq::empty()
    } else {
        let p = dedup_files_spec(fs.drop_last());
        if abs_present(p, fs.last().0) {
            p
        } else {
            p.push(fs.last())
        }
    }
}

/// Some kept file already has this absolute path.
pub open spec fn abs_present(fs: Seq<(Seq<char>, Seq<char>)>, abs: Seq<char>) -> bool {
    exists|i: int| 0 <= i < fs.len() && fs[i].0 == abs
}

/// The view of a local file entry.
pub open spec fn file_view(f: SaveFileDto) -> (Seq<char>, Seq<char>) {
    (f.absolute@, f.relative@)
}

/// The views of a local file list.
pub open spec fn files_view(fs: Seq<SaveFileDto>) -> Seq<(Seq<char>, Seq<char>)> {
    Seq::new(fs.len(), |i: int| file_view(fs[i]))
}

/// Deduplicates enumerated files by absolute path; the first occurrence
/// wins.
pub fn dedup_files(files: Vec<SaveFileDto>) -> (r: Vec<SaveFileDto>)
    ensures
        files_view(r@) == dedup_files_spec(files_view(files@)),
{
    let ghost orig = files_view(files@);
    let mut rest = files;
    let mut out: Vec<SaveFileDto> = Vec::new();
    let ghost mut done: int = 0;
    while rest.len() > 0
        invariant
            0 <= done,
            done + rest@.len() == orig.len(),
            files_view(rest@) =~= orig.skip(done),
            files_view(out@) == dedup_files_spec(orig.take(done)),
        decreases rest@.len(),
    {
        let ghost before = files_view(rest@);
        let f = rest.remove(0);
        proof {
            assert(before =~= seq![file_view(f)] + files_view(rest@));
            assert(file_view(f) == orig[done]) by {
                assert(before[0] == file_view(f));
                assert(orig.skip(done)[0] == orig[done]);
            }
            assert(files_view(rest@) =~= orig.skip(done + 1)) by {
                assert forall|k: int| 0 <= k < files_view(rest@).len() implies files_view(
                    rest@,
                )[k] == orig.skip(done + 1)[k] by {
                    assert(before[k + 1] == files_view(rest@)[k]);
                    assert(before[k + 1] == orig.skip(done)[k + 1]);
                    assert(orig.skip(done)[k + 1] == orig[done + 1 + k]);
                }
            }
            assert(orig.take(done + 1).drop_last() =~= orig.take(done));
            assert(orig.take(done + 1).last() == orig[done]);
        }
        let fa = chars_of(f.absolute.as_str());
        let mut present: bool = false;
        let mut i: usize = 0;
        while i < out.len()
            invariant
                i <= out@.len(),
                fa@ == file_view(f).0,
                present ==> abs_present(files_view(out@), file_view(f).0),
                !present ==> forall|j: int| 0 <= j < i ==> files_view(out@)[j].0 != file_view(f).0,
            decreases out@.len() - i,
        {
            let oa = chars_of(out[i].absolute.as_str());
            if eq_chars(&oa, &fa) {
                present = true;
                assert(files_view(out@)[i as int].0 == file_view(f).0);
            }
            i += 1;
        }
        if present {
            proof {
                assert(files_view(out@) == dedup_files_spec(orig.take(done + 1)));
            }
        } else {
            proof {
                assert(!abs_present(files_view(out@), file_view(f).0));
            }
            out.push(f);
            proof {
                assert(files_view(out@) =~= dedup_files_spec(orig.take(done)) + seq![orig[done]]);
            }
        }
        proof {
            done = done + 1;
        }
    }
    proof {
        assert(orig.take(orig.len() as int) =~= orig);
    }
    out
}

/// Number of successful outcomes.
pub open spec fn ok_count_of(os: Seq<Result<(), String>>) -> int
    decreases os.len(),
{
    if os.len() == 0 {
        0
    } else {
        ok_count_of(os.drop_last()) + if os.last() is Ok {
            1int
        } else {
            0int
        }
    }
}

/// Number of failed outcomes.
pub open spec fn err_count_of(os: Seq<Result<(), String>>) -> int
    decreases os.len(),
{
    if os.len() == 0 {
        0
    } else {
        err_count_of(os.drop_last()) + if os.last() is Err {
            1int
        } else {
            0int
        }
    }
}

/// The error messages of the failed outcomes, in order.
pub open spec fn errors_of(os: Seq<Result<(), String>>) -> Seq<Seq<char>>
    decreases os.len(),
{
    if os.len() == 0 {
        Seq::empty()
    } else {
        errors_of(os.drop_last()) + match os.last() {
            Result::Ok(_) => Seq::<Seq<char>>::empty(),
            Result::Err(e) => seq![e@],
        }
    }
}

/// Every file of a batch is accounted for: successes and failures add up to
/// the batch size, and there is exactly one error message per failure — one
/// file's failure never stops the others from being processed.
pub proof fn lemma_batch_accounts_every_file(os: Seq<Result<(), String>>)
    ensures
        ok_count_of(os) + err_count_of(os) == os.len(),
        errors_of(os).len() == err_count_of(os),
        0 <= ok_count_of(os),
        0 <= err_count_of(os),
    decreases os.len(),
{
    if os.len() > 0 {
        lemma_batch_accounts_every_file(os.drop_last());
    }
}

/// Folds the per-file outcomes of a batch into its result: a count of
/// successes, a count of failures, and the failures' messages in order.
pub fn summarize_outcomes(outcomes: Vec<Result<(), String>>) -> (r: SyncResultDto)
    requires
        outcomes@.len() <= u32::MAX,
    ensures
        r.ok_count == ok_count_of(outcomes@),
        r.err_count == err_count_of(outcomes@),
        r.errors.deep_view() == errors_of(outcomes@),
{
    let ghost orig = outcomes@;
    proof {
        lemma_batch_accounts_every_file(orig);
    }
    let mut rest = outcomes;
    let mut ok_count: u32 = 0;
    let mut err_count: u32 = 0;
    let mut errors: Vec<String> = Vec::new();
    let ghost mut done: int = 0;
    while rest.len() > 0
        invariant
            0 <= done,
            done + rest@.len() == orig.len(),
            orig.len() <= u32::MAX,
            rest@ =~= orig.skip(done),
            ok_count == ok_count_of(orig.take(done)),
            err_count == err_count_of(orig.take(done)),
            errors.deep_view() == errors_of(orig.take(done)),
        decreases rest@.len(),
    {
        let o = rest.remove(0);
        proof {
            assert(rest@ =~= orig.skip(done + 1));
            assert(o == orig[done]);
            assert(orig.take(done + 1).drop_last() =~= orig.take(done));
            assert(orig.take(done + 1).last() == orig[done]);
            lemma_batch_accounts_every_file(orig.take(done));
            lemma_take_counts_bounded(orig, done);
        }
        match o {
            Ok(_) => {
                ok_count += 1;
                proof {
                    assert(errors.deep_view() =~= errors_of(orig.take(done + 1)));
                }
            },
            Err(e) => {
                err_count += 1;
                crate::text::push_name(&mut errors, &e);
                proof {
                    assert(errors.deep_view() =~= errors_of(orig.take(done)) + seq![e@]);
                }
            },
        }
        proof {
            done = done + 1;
        }
    }
    proof {
        assert(orig.take(orig.len() as int) =~= orig);
    }
    SyncResultDto { ok_count, err_count, errors }
}

/// Counts over a prefix stay within the whole batch's size.
proof fn lemma_take_counts_bounded(os: Seq<Result<(), String>>, k: int)
    requires
        0 <= k <= os.len(),
    ensures
        ok_count_of(os.take(k)) + err_count_of(os.take(k)) == k,
{
    lemma_batch_accounts_every_file(os.take(k));
}

/// Plans an upload batch: without local files there is nothing to do, and
/// the result says so in an informational message with zero counts.
pub fn plan_upload(files: Vec<SaveFileDto>) -> (r: Result<Vec<SaveFileDto>, SyncResultDto>)
    ensures
        match r {
            Ok(fs) => fs@.len() > 0 && fs@ == files@,
            Err(res) => files@.len() == 0 && res.ok_count == 0 && res.err_count == 0
                && res.errors.deep_view() == seq![
                "No se encontraron archivos en las rutas del juego"@,
            ],
        },
{
    if files.len() == 0 {
        let mut errors: Vec<String> = Vec::new();
        crate::text::push_name(
            &mut errors,
            &("No se encontraron archivos en las rutas del juego".to_owned()),
        );
        proof {
            assert(errors.deep_view() =~= seq!["No se encontraron archivos en las rutas del juego"@]);
        }
        Err(SyncResultDto { ok_count: 0, err_count: 0, errors })
    } else {
        Ok(files)
    }
}

/// Plans a download batch for one game: an empty remote listing is not a
/// failure, but a zero-count result with an informational message.
pub fn plan_download(records: Vec<RemoteSaveInfoDto>, game_id: &str) -> (r: Result<
    Vec<RemoteSaveInfoDto>,
    SyncResultDto,
>)
    ensures
        match r {
            Ok(saves) => infos_view(saves@) == records_for_game(infos_view(records@), game_id@)
                && saves@.len() > 0,
            Err(res) => records_for_game(infos_view(records@), game_id@).len() == 0
                && res.ok_count == 0 && res.err_count == 0 && res.errors.deep_view() == seq![
                "No hay guardados de este juego en la nube"@,
            ],
        },
{
    let saves = filter_records_for_game(records, game_id);
    if saves.len() == 0 {
        proof {
            assert(infos_view(saves@).len() == saves@.len());
        }
        let mut errors: Vec<String> = Vec::new();
        crate::text::push_name(&mut errors, &("No hay guardados de este juego en la nube".to_owned()));
        proof {
            assert(errors.deep_view() =~= seq!["No hay guardados de este juego en la nube"@]);
        }
        Err(SyncResultDto { ok_count: 0, err_count: 0, errors })
    } else {
        Ok(saves)
    }
}

/// Checks the settings every remote operation needs: a non-blank base URL
/// and user identifier; the API key may be absent and defaults to empty.
pub fn require_api_config(cfg: &Config) -> (r: Result<(String, String, String), String>)
    ensures
        match r {
            Ok(t) => {
                &&& !blank(cfg.api_base_url)
                &&& !blank(cfg.user_id)
                &&& cfg.api_base_url matches Option::Some(b) && t.0@ == b@
                &&& cfg.user_id matches Option::Some(u) && t.1@ == u@
                &&& t.2@ == (match cfg.api_key {
                    Option::Some(k) => k@,
                    Option::None => Seq::<char>::empty(),
                })
            },
            Err(e) => {
                ||| (blank(cfg.api_base_url) && e@ == "Configura apiBaseUrl en Configuración"@)
                ||| (!blank(cfg.api_base_url) && blank(cfg.user_id) && e@
                    == "Configura userId en Configuración"@)
            },
        },
{
    if crate::config::is_blank(&cfg.api_base_url) {
        return Err("Configura apiBaseUrl en Configuración".to_owned());
    }
    if crate::config::is_blank(&cfg.user_id) {
        return Err("Configura userId en Configuración".to_owned());
    }
    let base = match &cfg.api_base_url {
        Some(b) => b.clone(),
        None => String::new(),
    };
    let user = match &cfg.user_id {
        Some(u) => u.clone(),
        None => String::new(),
    };
    let key = match &cfg.api_key {
        Some(k) => k.clone(),
        None => String::new(),
    };
    Ok((base, user, key))
}

/// Components joined with single forward slashes.
pub open spec fn join_components(cs: Seq<Seq<char>>) -> Seq<char>
    decreases cs.len(),
{
    if cs.len() == 0 {
        Seq::empty()
    } else if cs.len() == 1 {
        cs[0]
    } else {
        cs[0] + seq!['/'] + join_components(cs.drop_first())
    }
}

/// Appending one component: a slash separates it from a non-empty prefix.
proof fn lemma_join_push(cs: Seq<Seq<char>>, x: Seq<char>)
    ensures
        join_components(cs.push(x)) == if cs.len() == 0 {
            x
        } else {
            join_components(cs) + seq!['/'] + x
        },
    decreases cs.len(),
{
    if cs.len() == 0 {
        assert(cs.push(x).len() == 1);
        assert(cs.push(x)[0] == x);
    } else {
        lemma_join_push(cs.drop_first(), x);
        assert(cs.push(x).drop_first() =~= cs.drop_first().push(x));
        assert(cs.push(x)[0] == cs[0]);
        if cs.len() == 1 {
            assert(join_components(cs.push(x)) =~= join_components(cs) + seq!['/'] + x);
        } else {
            assert(cs[0] + seq!['/'] + (join_components(cs.drop_first()) + seq!['/'] + x) =~= (cs[0]
                + seq!['/'] + join_components(cs.drop_first())) + seq!['/'] + x);
        }
    }
}

/// The name of a file relative to a base directory: the file's path
/// components past the base's, joined with forward slashes; nothing when
/// the file does not lie under the base.
pub open spec fn relative_name_spec(full: Seq<char>, base: Seq<char>) -> Option<Seq<char>> {
    if crate::manifest::is_path_prefix(base, full) {
        Option::Some(
            join_components(
                crate::manifest::path_components(full).skip(
                    crate::manifest::path_components(base).len() as int,
                ),
            ),
        )
    } else {
        Option::None
    }
}

/// Computes a file's name relative to its registered root, with forward
/// slashes, whichever separators the walker used.
pub fn relative_name(full: &str, base: &str) -> (r: Option<String>)
    ensures
        match r {
            Some(s) => relative_name_spec(full@, base@) == Option::Some(s@),
            None => relative_name_spec(full@, base@) is None,
        },
{
    if !crate::manifest::path_is_prefix(base, full) {
        return None;
    }
    let fc = crate::text::split_tokens(&chars_of(full), true);
    let skip_n = crate::manifest::component_count(base);
    let ghost cs = fc.deep_view().skip(skip_n as int);
    assert(skip_n <= fc@.len()) by {
        assert(crate::manifest::path_components(base@).is_prefix_of(
            crate::manifest::path_components(full@),
        ));
    }
    let mut out: Vec<char> = Vec::new();
    let mut k: usize = skip_n;
    proof {
        assert(cs.take(0) =~= Seq::<Seq<char>>::empty());
        assert(out@ =~= join_components(cs.take(0)));
    }
    while k < fc.len()
        invariant
            skip_n <= k <= fc@.len(),
            cs == fc.deep_view().skip(skip_n as int),
            cs.len() == fc@.len() - skip_n,
            out@ == join_components(cs.take(k - skip_n)),
        decreases fc@.len() - k,
    {
        let comp = chars_of(fc[k].as_str());
        proof {
            assert(cs[k - skip_n] == fc.deep_view()[k as int]);
            assert(cs.take(k - skip_n + 1) =~= cs.take(k - skip_n).push(cs[k - skip_n]));
            lemma_join_push(cs.take(k - skip_n), cs[k - skip_n]);
        }
        if k > skip_n {
            out.push('/');
        }
        crate::text::append_chars(&mut out, &comp);
        proof {
            if k == skip_n {
                assert(out@ =~= join_components(cs.take(k - skip_n + 1)));
            } else {
                assert(out@ =~= join_components(cs.take(k - skip_n)) + seq!['/'] + cs[k - skip_n]);
            }
        }
        k += 1;
    }
    proof {
        assert(cs.take(cs.len() as int) =~= cs);
    }
    Some(string_from_chars(&out))
}

/// Joins a destination base directory and a relative filename with a single
/// forward slash.
pub fn join_path(base: &str, rel: &str) -> (r: String)
    ensures
        r@ == base@ + "/"@ + rel@,
{
    join3(base, "/", rel)
}

} // verus!
